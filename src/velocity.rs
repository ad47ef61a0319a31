use vstd::prelude::*;
use crate::error::ConfigError;

verus! {

/// Sum of the first `n` weights.
pub open spec fn weight_total(w: Seq<u64>, n: nat) -> int
    decreases n,
{
    if n == 0 {
        0
    } else {
        weight_total(w, (n - 1) as nat) + w[n - 1] as int
    }
}

/// First moment of the first `n` weights along one velocity component: `sum w_i * e_i`.
pub open spec fn moment(w: Seq<u64>, e: Seq<i64>, n: nat) -> int
    decreases n,
{
    if n == 0 {
        0
    } else {
        moment(w, e, (n - 1) as nat) + w[n - 1] * e[n - 1]
    }
}

pub open spec fn unit_component(c: i64) -> bool {
    -1 <= c <= 1
}

/// Directions `i` and `j` carry the same velocity vector.
pub open spec fn same_velocity(ex: Seq<i64>, ey: Seq<i64>, ez: Seq<i64>, i: int, j: int) -> bool {
    ex[i] == ex[j] && ey[i] == ey[j] && ez[i] == ez[j]
}

/// Direction `j` carries the negated velocity of direction `i`.
pub open spec fn reversed(ex: Seq<i64>, ey: Seq<i64>, ez: Seq<i64>, i: int, j: int) -> bool {
    ex[j] == -ex[i] && ey[j] == -ey[i] && ez[j] == -ez[i]
}

/// Some direction carries the negated velocity of direction `i`.
pub open spec fn has_reverse(ex: Seq<i64>, ey: Seq<i64>, ez: Seq<i64>, i: int) -> bool {
    exists|j: int| 0 <= j < ex.len() && #[trigger] reversed(ex, ey, ez, i, j)
}

/// Every velocity has integer components in [-1, 1] and magnitude 0, 1 or sqrt 2.
pub open spec fn short_velocities(ex: Seq<i64>, ey: Seq<i64>, ez: Seq<i64>) -> bool {
    forall|i: int| 0 <= i < ex.len() ==> #[trigger] short_at(ex, ey, ez, i)
}

pub open spec fn short_at(ex: Seq<i64>, ey: Seq<i64>, ez: Seq<i64>, i: int) -> bool {
    &&& unit_component(ex[i]) && unit_component(ey[i]) && unit_component(ez[i])
    &&& ex[i] * ex[i] + ey[i] * ey[i] + ez[i] * ez[i] <= 2
}

/// No two directions carry the same velocity.
pub open spec fn distinct_velocities(ex: Seq<i64>, ey: Seq<i64>, ez: Seq<i64>) -> bool {
    forall|i: int, j: int|
        0 <= i < ex.len() && 0 <= j < ex.len() && i != j ==> !#[trigger] same_velocity(
            ex,
            ey,
            ez,
            i,
            j,
        )
}

/// What makes a list of velocity vectors and weights (over the denominator `den`) a
/// lattice model: distinct integer velocities of magnitude 0, 1 or sqrt 2, closed under
/// negation (so at most 27 of them), weights that are symmetric under negation, sum to one and have a zero
/// first moment.
pub open spec fn valid_lattice(
    ex: Seq<i64>,
    ey: Seq<i64>,
    ez: Seq<i64>,
    w: Seq<u64>,
    den: u64,
) -> bool {
    let q = w.len();
    &&& q > 0
    &&& ex.len() == q && ey.len() == q && ez.len() == q
    &&& den > 0
    &&& q <= 27
    &&& short_velocities(ex, ey, ez)
    &&& distinct_velocities(ex, ey, ez)
    &&& forall|i: int| 0 <= i < q ==> #[trigger] has_reverse(ex, ey, ez, i)
    &&& forall|i: int, j: int|
        0 <= i < q && 0 <= j < q && reversed(ex, ey, ez, i, j) ==> w[i] == w[j]
    &&& weight_total(w, q) == den
    &&& moment(w, ex, q) == 0
    &&& moment(w, ey, q) == 0
    &&& moment(w, ez, q) == 0
}

/// A discrete-velocity lattice model. Weights are the rationals `weights[i] / weight_den`;
/// the squared lattice sound speed is `c_squ_num / c_squ_den`.
#[derive(Debug)]
pub struct VelocitySet {
    pub ex: Vec<i64>,
    pub ey: Vec<i64>,
    pub ez: Vec<i64>,
    pub weights: Vec<u64>,
    pub weight_den: u64,
    pub opposite: Vec<usize>,
    pub c_squ_num: u64,
    pub c_squ_den: u64,
}

impl VelocitySet {
    pub open spec fn q(&self) -> nat {
        self.weights@.len()
    }

    pub open spec fn wf(&self) -> bool {
        &&& valid_lattice(self.ex@, self.ey@, self.ez@, self.weights@, self.weight_den)
        &&& self.opposite@.len() == self.q()
        &&& forall|i: int|
            0 <= i < self.q() ==> (self.opposite@[i] as int) < self.q() && reversed(
                self.ex@,
                self.ey@,
                self.ez@,
                i,
                self.opposite@[i] as int,
            )
        &&& self.c_squ_den > 0
    }

    /// The nine-direction two-dimensional model: rest, four axis directions
    /// (weight 1/9) and four diagonals (weight 1/36); rest weight 4/9.
    pub fn d2q9() -> (r: VelocitySet)
        ensures
            r.wf(),
            r.q() == 9,
            r.weight_den == 36,
            r.weights@ == seq![16u64, 4, 4, 4, 4, 1, 1, 1, 1],
            r.ex@ == seq![0i64, 1, 0, -1i64, 0, 1, -1i64, -1i64, 1],
            r.ey@ == seq![0i64, 0, 1, 0, -1i64, 1, 1, -1i64, -1i64],
            r.ez@ == seq![0i64, 0, 0, 0, 0, 0, 0, 0, 0],
            r.opposite@ == seq![0usize, 3, 4, 1, 2, 7, 8, 5, 6],
            r.c_squ_num == 1 && r.c_squ_den == 3,
    {
        let r = VelocitySet {
            ex: vec![0i64, 1, 0, -1, 0, 1, -1, -1, 1],
            ey: vec![0i64, 0, 1, 0, -1, 1, 1, -1, -1],
            ez: vec![0i64, 0, 0, 0, 0, 0, 0, 0, 0],
            weights: vec![16u64, 4, 4, 4, 4, 1, 1, 1, 1],
            weight_den: 36,
            opposite: vec![0usize, 3, 4, 1, 2, 7, 8, 5, 6],
            c_squ_num: 1,
            c_squ_den: 3,
        };
        proof {
            let ex = r.ex@;
            let ey = r.ey@;
            let ez = r.ez@;
            let w = r.weights@;
            assert(ex =~= seq![0i64, 1, 0, -1i64, 0, 1, -1i64, -1i64, 1]);
            assert(ey =~= seq![0i64, 0, 1, 0, -1i64, 1, 1, -1i64, -1i64]);
            assert(ez =~= seq![0i64, 0, 0, 0, 0, 0, 0, 0, 0]);
            assert(w =~= seq![16u64, 4, 4, 4, 4, 1, 1, 1, 1]);
            assert(r.opposite@ =~= seq![0usize, 3, 4, 1, 2, 7, 8, 5, 6]);
            reveal_with_fuel(weight_total, 10);
            reveal_with_fuel(moment, 10);
            assert forall|i: int| 0 <= i < 9 implies #[trigger] has_reverse(ex, ey, ez, i) by {
                assert(reversed(ex, ey, ez, i, r.opposite@[i] as int));
            }
            assert(weight_total(w, 9) == 36);
            assert(moment(w, ex, 9) == 0) by {
                assert(w[0] == 16 && ex[0] == 0);
                assert(w[0] * ex[0] == 0) by (nonlinear_arith)
                    requires
                        w[0] == 16 && ex[0] == 0,
                ;
                assert(moment(w, ex, 1) == 0);
                assert(w[1] == 4 && ex[1] == 1);
                assert(w[1] * ex[1] == 4) by (nonlinear_arith)
                    requires
                        w[1] == 4 && ex[1] == 1,
                ;
                assert(moment(w, ex, 2) == 4);
                assert(w[2] == 4 && ex[2] == 0);
                assert(w[2] * ex[2] == 0) by (nonlinear_arith)
                    requires
                        w[2] == 4 && ex[2] == 0,
                ;
                assert(moment(w, ex, 3) == 4);
                assert(w[3] == 4 && ex[3] == -1);
                assert(w[3] * ex[3] == -4) by (nonlinear_arith)
                    requires
                        w[3] == 4 && ex[3] == -1,
                ;
                assert(moment(w, ex, 4) == 0);
                assert(w[4] == 4 && ex[4] == 0);
                assert(w[4] * ex[4] == 0) by (nonlinear_arith)
                    requires
                        w[4] == 4 && ex[4] == 0,
                ;
                assert(moment(w, ex, 5) == 0);
                assert(w[5] == 1 && ex[5] == 1);
                assert(w[5] * ex[5] == 1) by (nonlinear_arith)
                    requires
                        w[5] == 1 && ex[5] == 1,
                ;
                assert(moment(w, ex, 6) == 1);
                assert(w[6] == 1 && ex[6] == -1);
                assert(w[6] * ex[6] == -1) by (nonlinear_arith)
                    requires
                        w[6] == 1 && ex[6] == -1,
                ;
                assert(moment(w, ex, 7) == 0);
                assert(w[7] == 1 && ex[7] == -1);
                assert(w[7] * ex[7] == -1) by (nonlinear_arith)
                    requires
                        w[7] == 1 && ex[7] == -1,
                ;
                assert(moment(w, ex, 8) == -1);
                assert(w[8] == 1 && ex[8] == 1);
                assert(w[8] * ex[8] == 1) by (nonlinear_arith)
                    requires
                        w[8] == 1 && ex[8] == 1,
                ;
                assert(moment(w, ex, 9) == 0);
            }
            assert(moment(w, ey, 9) == 0);
            assert(moment(w, ez, 9) == 0);
            assert forall|i: int| 0 <= i < 9 implies #[trigger] short_at(ex, ey, ez, i) by {
                let (a, b, c) = (ex[i] as int, ey[i] as int, ez[i] as int);
                assert(-1 <= a <= 1 && -1 <= b <= 1 && c == 0);
                assert(a * a <= 1 && b * b <= 1) by (nonlinear_arith)
                    requires
                        -1 <= a <= 1 && -1 <= b <= 1,
                ;
            }
            assert(valid_lattice(ex, ey, ez, w, 36));
            assert forall|i: int, j: int| 0 <= i < 9 && 0 <= j < 9 && i != j implies !#[trigger] same_velocity(
                ex,
                ey,
                ez,
                i,
                j,
            ) by {
                assert(0 <= i < 9 && 0 <= j < 9);
            }
            assert forall|i: int, j: int|
                0 <= i < 9 && 0 <= j < 9 && reversed(ex, ey, ez, i, j) implies w[i] == w[j] by {
                assert(0 <= i < 9 && 0 <= j < 9);
            }
        }
        r
    }

    /// A lattice model from its velocity components, weight numerators and weight
    /// denominator, with squared sound speed 1/3; rejected unless they form a valid
    /// lattice model.
    pub fn new(ex: Vec<i64>, ey: Vec<i64>, ez: Vec<i64>, weights: Vec<u64>, weight_den: u64) -> (r:
        Result<VelocitySet, ConfigError>)
        ensures
            r is Ok <==> valid_lattice(ex@, ey@, ez@, weights@, weight_den),
            r is Err ==> r == Err::<VelocitySet, ConfigError>(ConfigError::InvalidVelocitySet),
            r is Ok ==> {
                let vs = r->Ok_0;
                &&& vs.wf()
                &&& vs.ex@ == ex@ && vs.ey@ == ey@ && vs.ez@ == ez@
                &&& vs.weights@ == weights@ && vs.weight_den == weight_den
                &&& vs.c_squ_num == 1 && vs.c_squ_den == 3
            },
    {
        let q = weights.len();
        if q == 0 || q > 27 || ex.len() != q || ey.len() != q || ez.len() != q || weight_den == 0 {
            return Err(ConfigError::InvalidVelocitySet);
        }
        if !check_short(&ex, &ey, &ez) || !check_distinct(&ex, &ey, &ez) {
            return Err(ConfigError::InvalidVelocitySet);
        }
        let opposite = match find_opposites(&ex, &ey, &ez) {
            Some(o) => o,
            None => {
                return Err(ConfigError::InvalidVelocitySet);
            },
        };
        let mut i: usize = 0;
        while i < q
            invariant
                q == weights@.len() && ex@.len() == q && ey@.len() == q && ez@.len() == q,
                i <= q,
                opposite@.len() == q,
                forall|k: int|
                    0 <= k < q ==> (#[trigger] opposite@[k] as int) < q && reversed(
                        ex@,
                        ey@,
                        ez@,
                        k,
                        opposite@[k] as int,
                    ),
                forall|k: int| 0 <= k < i ==> weights@[opposite@[k] as int] == #[trigger] weights@[k],
            decreases q - i,
        {
            if weights[opposite[i]] != weights[i] {
                proof {
                    assert(reversed(ex@, ey@, ez@, i as int, opposite@[i as int] as int));
                }
                return Err(ConfigError::InvalidVelocitySet);
            }
            i = i + 1;
        }
        proof {
            assert forall|k: int| 0 <= k < q implies unit_component(#[trigger] ex@[k]) by {
                assert(short_at(ex@, ey@, ez@, k));
            }
            assert forall|k: int| 0 <= k < q implies unit_component(#[trigger] ey@[k]) by {
                assert(short_at(ex@, ey@, ez@, k));
            }
            assert forall|k: int| 0 <= k < q implies unit_component(#[trigger] ez@[k]) by {
                assert(short_at(ex@, ey@, ez@, k));
            }
            assert forall|k: int, j: int|
                0 <= k < q && 0 <= j < q && reversed(ex@, ey@, ez@, k, j) implies weights@[k]
                == weights@[j] by {
                let o = opposite@[k] as int;
                assert(reversed(ex@, ey@, ez@, k, o));
                if j != o {
                    assert(same_velocity(ex@, ey@, ez@, j, o));
                }
            }
            assert forall|k: int| 0 <= k < q implies #[trigger] has_reverse(ex@, ey@, ez@, k) by {
                assert(reversed(ex@, ey@, ez@, k, opposite@[k] as int));
            }
        }
        let total = weight_sum(&weights);
        let mx = first_moment(&weights, &ex);
        let my = first_moment(&weights, &ey);
        let mz = first_moment(&weights, &ez);
        if total != weight_den as u128 || mx != 0 || my != 0 || mz != 0 {
            return Err(ConfigError::InvalidVelocitySet);
        }
        Ok(VelocitySet { ex, ey, ez, weights, weight_den, opposite, c_squ_num: 1, c_squ_den: 3 })
    }

    /// Number of directions.
    pub fn size(&self) -> (r: usize)
        ensures
            r == self.q(),
    {
        self.weights.len()
    }
}

fn check_short(ex: &Vec<i64>, ey: &Vec<i64>, ez: &Vec<i64>) -> (r: bool)
    requires
        ey@.len() == ex@.len() && ez@.len() == ex@.len(),
    ensures
        r == short_velocities(ex@, ey@, ez@),
{
    let mut i: usize = 0;
    while i < ex.len()
        invariant
            ey@.len() == ex@.len() && ez@.len() == ex@.len(),
            i <= ex@.len(),
            forall|k: int| 0 <= k < i ==> #[trigger] short_at(ex@, ey@, ez@, k),
        decreases ex@.len() - i,
    {
        let (a, b, c) = (ex[i], ey[i], ez[i]);
        if a < -1 || a > 1 || b < -1 || b > 1 || c < -1 || c > 1 {
            proof {
                assert(!short_at(ex@, ey@, ez@, i as int));
            }
            return false;
        }
        proof {
            assert(0 <= a * a <= 1 && 0 <= b * b <= 1 && 0 <= c * c <= 1) by (nonlinear_arith)
                requires
                    -1 <= a <= 1 && -1 <= b <= 1 && -1 <= c <= 1,
            ;
        }
        if a * a + b * b + c * c > 2 {
            proof {
                assert(!short_at(ex@, ey@, ez@, i as int));
            }
            return false;
        }
        i = i + 1;
    }
    true
}

fn check_distinct(ex: &Vec<i64>, ey: &Vec<i64>, ez: &Vec<i64>) -> (r: bool)
    requires
        ey@.len() == ex@.len() && ez@.len() == ex@.len(),
    ensures
        r == distinct_velocities(ex@, ey@, ez@),
{
    let q = ex.len();
    let mut i: usize = 0;
    while i < q
        invariant
            ey@.len() == q && ez@.len() == q && ex@.len() == q,
            i <= q,
            forall|k: int, j: int|
                0 <= k < i && 0 <= j < q && k != j ==> !#[trigger] same_velocity(ex@, ey@, ez@, k, j),
        decreases q - i,
    {
        let mut j: usize = 0;
        while j < q
            invariant
                ey@.len() == q && ez@.len() == q && ex@.len() == q,
                i < q,
                j <= q,
                forall|k: int, j2: int|
                    0 <= k < i && 0 <= j2 < q && k != j2 ==> !#[trigger] same_velocity(
                        ex@,
                        ey@,
                        ez@,
                        k,
                        j2,
                    ),
                forall|j2: int|
                    0 <= j2 < j && i != j2 ==> !#[trigger] same_velocity(ex@, ey@, ez@, i as int, j2),
            decreases q - j,
        {
            if i != j && ex[i] == ex[j] && ey[i] == ey[j] && ez[i] == ez[j] {
                proof {
                    assert(same_velocity(ex@, ey@, ez@, i as int, j as int));
                }
                return false;
            }
            j = j + 1;
        }
        i = i + 1;
    }
    true
}

/// For each direction, the direction that carries its negated velocity.
fn find_opposites(ex: &Vec<i64>, ey: &Vec<i64>, ez: &Vec<i64>) -> (r: Option<Vec<usize>>)
    requires
        ey@.len() == ex@.len() && ez@.len() == ex@.len(),
        short_velocities(ex@, ey@, ez@),
    ensures
        match r {
            Some(o) => o@.len() == ex@.len() && forall|k: int|
                0 <= k < ex@.len() ==> (#[trigger] o@[k] as int) < ex@.len() && reversed(
                    ex@,
                    ey@,
                    ez@,
                    k,
                    o@[k] as int,
                ),
            None => exists|k: int| 0 <= k < ex@.len() && !#[trigger] has_reverse(ex@, ey@, ez@, k),
        },
{
    let q = ex.len();
    let mut opposite: Vec<usize> = Vec::new();
    let mut i: usize = 0;
    while i < q
        invariant
            ey@.len() == q && ez@.len() == q && ex@.len() == q,
            short_velocities(ex@, ey@, ez@),
            i <= q,
            opposite@.len() == i,
            forall|k: int|
                0 <= k < i ==> (#[trigger] opposite@[k] as int) < q && reversed(
                    ex@,
                    ey@,
                    ez@,
                    k,
                    opposite@[k] as int,
                ),
        decreases q - i,
    {
        proof {
            assert(short_at(ex@, ey@, ez@, i as int));
        }
        let mut j: usize = 0;
        let mut found = false;
        while j < q && !found
            invariant
                ey@.len() == q && ez@.len() == q && ex@.len() == q,
                i < q,
                j <= q,
                unit_component(ex@[i as int]) && unit_component(ey@[i as int]) && unit_component(
                    ez@[i as int],
                ),
                found ==> j < q && reversed(ex@, ey@, ez@, i as int, j as int),
                !found ==> forall|j2: int|
                    0 <= j2 < j ==> !#[trigger] reversed(ex@, ey@, ez@, i as int, j2),
            decreases q - j + (if found {
                0int
            } else {
                1int
            }),
        {
            if ex[j] == -ex[i] && ey[j] == -ey[i] && ez[j] == -ez[i] {
                found = true;
            } else {
                j = j + 1;
            }
        }
        if !found {
            proof {
                assert(!has_reverse(ex@, ey@, ez@, i as int));
            }
            return None;
        }
        opposite.push(j);
        i = i + 1;
    }
    Some(opposite)
}

/// Sum of all weights.
fn weight_sum(w: &Vec<u64>) -> (r: u128)
    requires
        w@.len() <= 27,
    ensures
        r == weight_total(w@, w@.len()),
{
    let mut acc: u128 = 0;
    let mut i: usize = 0;
    while i < w.len()
        invariant
            i <= w@.len(),
            w@.len() <= 27,
            acc == weight_total(w@, i as nat),
            acc <= i * 0xffff_ffff_ffff_ffff,
        decreases w@.len() - i,
    {
        acc = acc + w[i] as u128;
        i = i + 1;
    }
    acc
}

/// First moment of the weights along one velocity component with entries in [-1, 1].
fn first_moment(w: &Vec<u64>, e: &Vec<i64>) -> (r: i128)
    requires
        w@.len() <= 27,
        e@.len() == w@.len(),
        forall|k: int| 0 <= k < e@.len() ==> unit_component(#[trigger] e@[k]),
    ensures
        r == moment(w@, e@, w@.len()),
{
    let mut acc: i128 = 0;
    let mut i: usize = 0;
    while i < w.len()
        invariant
            i <= w@.len(),
            w@.len() <= 27,
            e@.len() == w@.len(),
            forall|k: int| 0 <= k < e@.len() ==> unit_component(#[trigger] e@[k]),
            acc == moment(w@, e@, i as nat),
            -(i * 0xffff_ffff_ffff_ffff) <= acc <= i * 0xffff_ffff_ffff_ffff,
        decreases w@.len() - i,
    {
        let wi = w[i];
        let ei = e[i];
        assert(unit_component(e@[i as int]));
        if ei == 1 {
            acc = acc + wi as i128;
        } else if ei == -1 {
            acc = acc - wi as i128;
        } else {
            assert(ei == 0);
        }
        i = i + 1;
    }
    acc
}

/// Every velocity component of a valid velocity set is -1, 0 or 1.
pub proof fn lemma_unit_velocity(vs: &VelocitySet, d: int)
    requires
        vs.wf(),
        0 <= d < vs.q(),
    ensures
        unit_component(vs.ex@[d]),
        unit_component(vs.ey@[d]),
        unit_component(vs.ez@[d]),
{
    assert(short_at(vs.ex@, vs.ey@, vs.ez@, d));
}

/// For every valid velocity set: the weights sum to one (to `weight_den` over
/// `weight_den`), their first moment is the zero vector, `opposite` is an involution,
/// and the opposite direction carries the negated velocity and the same weight.
pub proof fn lemma_velocity_set_laws(vs: &VelocitySet)
    requires
        vs.wf(),
    ensures
        weight_total(vs.weights@, vs.q()) == vs.weight_den as int,
        moment(vs.weights@, vs.ex@, vs.q()) == 0,
        moment(vs.weights@, vs.ey@, vs.q()) == 0,
        moment(vs.weights@, vs.ez@, vs.q()) == 0,
        forall|i: int|
            0 <= i < vs.q() ==> #[trigger] vs.opposite@[vs.opposite@[i] as int] as int == i,
        forall|i: int|
            0 <= i < vs.q() ==> vs.ex@[#[trigger] vs.opposite@[i] as int] == -vs.ex@[i]
                && vs.ey@[vs.opposite@[i] as int] == -vs.ey@[i] && vs.ez@[vs.opposite@[i] as int]
                == -vs.ez@[i] && vs.weights@[vs.opposite@[i] as int] == vs.weights@[i],
{
    assert forall|i: int| 0 <= i < vs.q() implies #[trigger] vs.opposite@[vs.opposite@[i] as int] as int
        == i by {
        let o = vs.opposite@[i] as int;
        let oo = vs.opposite@[o] as int;
        assert(reversed(vs.ex@, vs.ey@, vs.ez@, o, oo));
        assert(same_velocity(vs.ex@, vs.ey@, vs.ez@, i, oo));
    }
    assert forall|i: int| 0 <= i < vs.q() implies vs.weights@[#[trigger] vs.opposite@[i] as int]
        == vs.weights@[i] by {
        assert(reversed(vs.ex@, vs.ey@, vs.ez@, i, vs.opposite@[i] as int));
    }
}

} // verus!

use vstd::prelude::*;
use vstd::arithmetic::div_mod::{
    lemma_div_pos_is_pos, lemma_fundamental_div_mod_converse, lemma_mod_pos_bound,
    lemma_multiply_divide_lt,
};
use crate::constants::{AVG_DIG_MS, TIME_LIMIT_MS};
use crate::heap::HeapOrd;

verus! {

/// Axis-aligned rectangle of grid cells, half-open on both axes:
/// it covers the cells `[pos_x, pos_x + size_x) x [pos_y, pos_y + size_y)`.
#[derive(Debug, PartialEq, Eq, Structural, Clone, Copy)]
pub struct Area {
    pub pos_x: u64,
    pub pos_y: u64,
    pub size_x: u64,
    pub size_y: u64,
}

impl Area {
    /// Number of cells covered by the rectangle.
    pub open spec fn spec_size(self) -> int {
        self.size_x * self.size_y
    }

    /// A rectangle the library works with: at least one cell on each axis,
    /// and far enough from the numeric edge of the grid that halving it,
    /// or counting its cells, stays within `u64`.
    pub open spec fn wf(self) -> bool {
        &&& 1 <= self.size_x
        &&& 1 <= self.size_y
        &&& self.pos_x + self.size_x <= u64::MAX
        &&& self.pos_y + self.size_y <= u64::MAX
        &&& self.size_x * self.size_y <= u64::MAX
    }

    /// Whether the cell at column `x`, row `y` lies inside the rectangle.
    pub open spec fn contains_cell(self, x: int, y: int) -> bool {
        &&& self.pos_x <= x < self.pos_x + self.size_x
        &&& self.pos_y <= y < self.pos_y + self.size_y
    }

    /// No cell lies in both rectangles.
    pub open spec fn disjoint(self, other: Area) -> bool {
        forall|x: int, y: int| !(self.contains_cell(x, y) && other.contains_cell(x, y))
    }

    /// The two halves produced by cutting at the midpoint of the x axis,
    /// left half first; a rectangle one cell wide is returned whole.
    pub open spec fn spec_split_x(self) -> Seq<Area> {
        if self.size_x >= 2 {
            seq![
                Area {
                    pos_x: self.pos_x,
                    pos_y: self.pos_y,
                    size_x: (self.size_x / 2) as u64,
                    size_y: self.size_y,
                },
                Area {
                    pos_x: (self.pos_x + self.size_x / 2) as u64,
                    pos_y: self.pos_y,
                    size_x: (self.size_x - self.size_x / 2) as u64,
                    size_y: self.size_y,
                },
            ]
        } else {
            seq![self]
        }
    }

    /// The two halves produced by cutting at the midpoint of the y axis,
    /// lower half first; a rectangle one cell tall is returned whole.
    pub open spec fn spec_split_y(self) -> Seq<Area> {
        if self.size_y >= 2 {
            seq![
                Area {
                    pos_x: self.pos_x,
                    pos_y: self.pos_y,
                    size_x: self.size_x,
                    size_y: (self.size_y / 2) as u64,
                },
                Area {
                    pos_x: self.pos_x,
                    pos_y: (self.pos_y + self.size_y / 2) as u64,
                    size_x: self.size_x,
                    size_y: (self.size_y - self.size_y / 2) as u64,
                },
            ]
        } else {
            seq![self]
        }
    }

    /// Cut on x, then cut each half on y: one, two or four parts, the left
    /// half's parts before the right's, and within each the lower before the
    /// upper.
    pub open spec fn spec_divide(self) -> Seq<Area> {
        if self.size_x >= 2 {
            self.spec_split_x()[0].spec_split_y() + self.spec_split_x()[1].spec_split_y()
        } else {
            self.spec_split_y()
        }
    }

    /// The vertical stripe handed to worker number `i`: `w` columns wide,
    /// the full `h` rows tall.
    pub fn initial_stripe(w: u64, h: u64, i: u64) -> (r: Area)
        requires
            1 <= w,
            1 <= h,
            w * i + w <= u64::MAX,
            w * h <= u64::MAX,
        ensures
            r == (Area { pos_x: (w * i) as u64, pos_y: 0u64, size_x: w, size_y: h }),
            r.wf(),
    {
        Area { pos_x: w * i, pos_y: 0, size_x: w, size_y: h }
    }

    pub fn size(&self) -> (r: u64)
        requires
            self.size_x * self.size_y <= u64::MAX,
        ensures
            r == self.spec_size(),
    {
        self.size_x * self.size_y
    }

    pub fn split_x(&self) -> (r: Vec<Area>)
        requires
            self.wf(),
        ensures
            r@ == self.spec_split_x(),
            forall|i: int| 0 <= i < r@.len() ==> (#[trigger] r@[i]).wf(),
    {
        let half_x: u64 = self.size_x / 2;
        let mut result: Vec<Area> = Vec::new();
        if half_x > 0 && self.size_x > half_x {
            result.push(Area {
                pos_x: self.pos_x,
                pos_y: self.pos_y,
                size_x: half_x,
                size_y: self.size_y,
            });
            result.push(Area {
                pos_x: self.pos_x + half_x,
                pos_y: self.pos_y,
                size_x: self.size_x - half_x,
                size_y: self.size_y,
            });
            proof {
                assert(half_x * self.size_y <= self.size_x * self.size_y) by (nonlinear_arith)
                    requires
                        half_x <= self.size_x,
                        0 <= half_x,
                        0 <= self.size_y,
                ;
                assert((self.size_x - half_x) * self.size_y <= self.size_x * self.size_y)
                    by (nonlinear_arith)
                    requires
                        0 < half_x <= self.size_x,
                        0 <= self.size_y,
                ;
                assert(result@ =~= self.spec_split_x());
            }
            result
        } else {
            result.push(*self);
            proof {
                assert(result@ =~= self.spec_split_x());
            }
            result
        }
    }

    pub fn split_y(&self) -> (r: Vec<Area>)
        requires
            self.wf(),
        ensures
            r@ == self.spec_split_y(),
            forall|i: int| 0 <= i < r@.len() ==> (#[trigger] r@[i]).wf(),
    {
        let half_y: u64 = self.size_y / 2;
        let mut result: Vec<Area> = Vec::new();
        if half_y > 0 && self.size_y > half_y {
            result.push(Area {
                pos_x: self.pos_x,
                pos_y: self.pos_y,
                size_x: self.size_x,
                size_y: half_y,
            });
            result.push(Area {
                pos_x: self.pos_x,
                pos_y: self.pos_y + half_y,
                size_x: self.size_x,
                size_y: self.size_y - half_y,
            });
            proof {
                assert(self.size_x * half_y <= self.size_x * self.size_y) by (nonlinear_arith)
                    requires
                        half_y <= self.size_y,
                        0 <= half_y,
                        0 <= self.size_x,
                ;
                assert(self.size_x * (self.size_y - half_y) <= self.size_x * self.size_y)
                    by (nonlinear_arith)
                    requires
                        0 < half_y <= self.size_y,
                        0 <= self.size_x,
                ;
                assert(result@ =~= self.spec_split_y());
            }
            result
        } else {
            result.push(*self);
            proof {
                assert(result@ =~= self.spec_split_y());
            }
            result
        }
    }

    pub fn divide(&self) -> (r: Vec<Area>)
        requires
            self.wf(),
        ensures
            r@ == self.spec_divide(),
            forall|i: int| 0 <= i < r@.len() ==> (#[trigger] r@[i]).wf(),
    {
        let parts: Vec<Area> = self.split_x();
        let mut result: Vec<Area> = parts[0].split_y();
        if parts.len() == 2 {
            let mut second: Vec<Area> = parts[1].split_y();
            result.append(&mut second);
        }
        proof {
            assert(result@ =~= self.spec_divide());
        }
        result
    }
}

/// Every part of `spec_divide`, in order, divided again and concatenated.
pub open spec fn divide_all(s: Seq<Area>) -> Seq<Area>
    decreases s.len(),
{
    if s.len() == 0 {
        Seq::empty()
    } else {
        divide_all(s.drop_last()) + s.last().spec_divide()
    }
}

impl Area {
    /// Two rounds of `divide`: the coarse seed tiles a worker starts from.
    pub fn split_in_8(&self) -> (r: Vec<Area>)
        requires
            self.wf(),
        ensures
            r@ == divide_all(self.spec_divide()),
            forall|i: int| 0 <= i < r@.len() ==> (#[trigger] r@[i]).wf(),
    {
        let parts: Vec<Area> = self.divide();
        let mut result: Vec<Area> = Vec::new();
        let mut i: usize = 0;
        while i < parts.len()
            invariant
                i <= parts@.len(),
                result@ == divide_all(parts@.subrange(0, i as int)),
                forall|j: int| 0 <= j < parts@.len() ==> (#[trigger] parts@[j]).wf(),
                forall|j: int| 0 <= j < result@.len() ==> (#[trigger] result@[j]).wf(),
            decreases parts@.len() - i,
        {
            let mut sub: Vec<Area> = parts[i].divide();
            result.append(&mut sub);
            proof {
                assert(parts@.subrange(0, i + 1 as int).drop_last() =~= parts@.subrange(
                    0,
                    i as int,
                ));
            }
            i = i + 1;
        }
        proof {
            assert(parts@.subrange(0, parts@.len() as int) =~= parts@);
        }
        result
    }
}

/// Combined number of cells of a sequence of rectangles.
pub open spec fn total_size(s: Seq<Area>) -> int
    decreases s.len(),
{
    if s.len() == 0 {
        0
    } else {
        total_size(s.drop_last()) + s.last().spec_size()
    }
}

/// The rectangles of `s` cover exactly the cells of `a`: each cell of `a`
/// lies in some member, and no member holds a cell outside `a`.
pub open spec fn exact_cover(s: Seq<Area>, a: Area) -> bool {
    forall|x: int, y: int|
        #![trigger a.contains_cell(x, y)]
        a.contains_cell(x, y) <==> exists|i: int|
            0 <= i < s.len() && (#[trigger] s[i]).contains_cell(x, y)
}

/// No cell lies in two distinct members of `s`.
pub open spec fn pairwise_disjoint(s: Seq<Area>) -> bool {
    forall|i: int, j: int|
        0 <= i < s.len() && 0 <= j < s.len() && i != j ==> #[trigger] s[i].disjoint(s[j])
}

/// `divide` partitions its area exactly: the parts are well-formed, they
/// cover every cell of the whole and nothing outside it, no cell lies in two
/// parts, and the parts' sizes add up to the whole.
pub proof fn lemma_divide_partitions(a: Area)
    requires
        a.wf(),
    ensures
        forall|i: int| 0 <= i < a.spec_divide().len() ==> (#[trigger] a.spec_divide()[i]).wf(),
        exact_cover(a.spec_divide(), a),
        pairwise_disjoint(a.spec_divide()),
        total_size(a.spec_divide()) == a.spec_size(),
{
    let px = a.pos_x as int;
    let py = a.pos_y as int;
    let sx = a.size_x as int;
    let sy = a.size_y as int;
    let hx = sx / 2;
    let hy = sy / 2;
    let parts = a.spec_divide();
    if sx >= 2 && sy >= 2 {
        let p0 = Area {
            pos_x: px as u64,
            pos_y: py as u64,
            size_x: hx as u64,
            size_y: hy as u64,
        };
        let p1 = Area {
            pos_x: px as u64,
            pos_y: (py + hy) as u64,
            size_x: hx as u64,
            size_y: (sy - hy) as u64,
        };
        let p2 = Area {
            pos_x: (px + hx) as u64,
            pos_y: py as u64,
            size_x: (sx - hx) as u64,
            size_y: hy as u64,
        };
        let p3 = Area {
            pos_x: (px + hx) as u64,
            pos_y: (py + hy) as u64,
            size_x: (sx - hx) as u64,
            size_y: (sy - hy) as u64,
        };
        assert(parts =~= seq![p0, p1, p2, p3]);
        assert(hx * hy <= sx * sy && hx * (sy - hy) <= sx * sy && (sx - hx) * hy <= sx * sy && (sx
            - hx) * (sy - hy) <= sx * sy) by (nonlinear_arith)
            requires
                1 <= hx <= sx,
                1 <= hy <= sy,
        ;
        assert(total_size(parts) == p0.spec_size() + p1.spec_size() + p2.spec_size()
            + p3.spec_size()) by {
            reveal_with_fuel(total_size, 5);
            assert(seq![p0, p1, p2, p3].drop_last() =~= seq![p0, p1, p2]);
            assert(seq![p0, p1, p2].drop_last() =~= seq![p0, p1]);
            assert(seq![p0, p1].drop_last() =~= seq![p0]);
            assert(seq![p0].drop_last() =~= Seq::<Area>::empty());
        }
        assert(hx * hy + hx * (sy - hy) + ((sx - hx) * hy + (sx - hx) * (sy - hy)) == sx * sy)
            by (nonlinear_arith);
        assert forall|x: int, y: int| a.contains_cell(x, y) implies exists|i: int|
            0 <= i < parts.len() && (#[trigger] parts[i]).contains_cell(x, y) by {
            if x < px + hx {
                if y < py + hy {
                    assert(parts[0].contains_cell(x, y));
                } else {
                    assert(parts[1].contains_cell(x, y));
                }
            } else {
                if y < py + hy {
                    assert(parts[2].contains_cell(x, y));
                } else {
                    assert(parts[3].contains_cell(x, y));
                }
            }
        }
        assert(p0.disjoint(p1) && p0.disjoint(p2) && p0.disjoint(p3));
        assert(p1.disjoint(p0) && p1.disjoint(p2) && p1.disjoint(p3));
        assert(p2.disjoint(p0) && p2.disjoint(p1) && p2.disjoint(p3));
        assert(p3.disjoint(p0) && p3.disjoint(p1) && p3.disjoint(p2));
    } else if sx >= 2 {
        let q0 = Area {
            pos_x: px as u64,
            pos_y: py as u64,
            size_x: hx as u64,
            size_y: sy as u64,
        };
        let q1 = Area {
            pos_x: (px + hx) as u64,
            pos_y: py as u64,
            size_x: (sx - hx) as u64,
            size_y: sy as u64,
        };
        assert(parts =~= seq![q0, q1]);
        assert(hx * sy <= sx * sy && (sx - hx) * sy <= sx * sy && hx * sy + (sx - hx) * sy == sx
            * sy) by (nonlinear_arith)
            requires
                1 <= hx <= sx,
                1 <= sy,
        ;
        assert(total_size(parts) == q0.spec_size() + q1.spec_size()) by {
            reveal_with_fuel(total_size, 3);
            assert(seq![q0, q1].drop_last() =~= seq![q0]);
            assert(seq![q0].drop_last() =~= Seq::<Area>::empty());
        }
        assert forall|x: int, y: int| a.contains_cell(x, y) implies exists|i: int|
            0 <= i < parts.len() && (#[trigger] parts[i]).contains_cell(x, y) by {
            if x < px + hx {
                assert(parts[0].contains_cell(x, y));
            } else {
                assert(parts[1].contains_cell(x, y));
            }
        }
        assert(q0.disjoint(q1) && q1.disjoint(q0));
    } else if sy >= 2 {
        let r0 = Area {
            pos_x: px as u64,
            pos_y: py as u64,
            size_x: sx as u64,
            size_y: hy as u64,
        };
        let r1 = Area {
            pos_x: px as u64,
            pos_y: (py + hy) as u64,
            size_x: sx as u64,
            size_y: (sy - hy) as u64,
        };
        assert(parts =~= seq![r0, r1]);
        assert(sx * hy <= sx * sy && sx * (sy - hy) <= sx * sy && sx * hy + sx * (sy - hy) == sx
            * sy) by (nonlinear_arith)
            requires
                1 <= hy <= sy,
                1 <= sx,
        ;
        assert(total_size(parts) == r0.spec_size() + r1.spec_size()) by {
            reveal_with_fuel(total_size, 3);
            assert(seq![r0, r1].drop_last() =~= seq![r0]);
            assert(seq![r0].drop_last() =~= Seq::<Area>::empty());
        }
        assert forall|x: int, y: int| a.contains_cell(x, y) implies exists|i: int|
            0 <= i < parts.len() && (#[trigger] parts[i]).contains_cell(x, y) by {
            if y < py + hy {
                assert(parts[0].contains_cell(x, y));
            } else {
                assert(parts[1].contains_cell(x, y));
            }
        }
        assert(r0.disjoint(r1) && r1.disjoint(r0));
    } else {
        assert(parts =~= seq![a]);
        assert(total_size(parts) == a.spec_size()) by {
            reveal_with_fuel(total_size, 2);
            assert(seq![a].drop_last() =~= Seq::<Area>::empty());
        }
        assert forall|x: int, y: int| a.contains_cell(x, y) implies exists|i: int|
            0 <= i < parts.len() && (#[trigger] parts[i]).contains_cell(x, y) by {
            assert(parts[0].contains_cell(x, y));
        }
    }
}

/// The unit cells of `a`, row-major: cell `k` sits at column `k % size_x`
/// and row `k / size_x` of the rectangle.
pub open spec fn unit_grid(a: Area) -> Seq<Area> {
    Seq::new(
        (a.size_x * a.size_y) as nat,
        |k: int|
            Area {
                pos_x: (a.pos_x + (k % (a.size_x as int))) as u64,
                pos_y: (a.pos_y + (k / (a.size_x as int))) as u64,
                size_x: 1u64,
                size_y: 1u64,
            },
    )
}

/// The grid of unit cells covers `a` exactly.
pub proof fn lemma_unit_grid_covers(a: Area)
    requires
        a.wf(),
    ensures
        exact_cover(unit_grid(a), a),
{
    let s = unit_grid(a);
    let px = a.pos_x as int;
    let py = a.pos_y as int;
    let sx = a.size_x as int;
    let sy = a.size_y as int;
    assert forall|x: int, y: int| #![trigger a.contains_cell(x, y)] a.contains_cell(x, y) == (
    exists|i: int| 0 <= i < s.len() && (#[trigger] s[i]).contains_cell(x, y)) by {
        if a.contains_cell(x, y) {
            let k = (y - py) * sx + (x - px);
            assert(0 <= (y - py) * sx + (x - px) < sx * sy) by (nonlinear_arith)
                requires
                    0 <= y - py < sy,
                    0 <= x - px < sx,
                    1 <= sx,
            ;
            lemma_fundamental_div_mod_converse(k, sx, y - py, x - px);
            assert(s[k].contains_cell(x, y));
        }
        if exists|i: int| 0 <= i < s.len() && (#[trigger] s[i]).contains_cell(x, y) {
            let i = choose|i: int| 0 <= i < s.len() && (#[trigger] s[i]).contains_cell(x, y);
            lemma_mod_pos_bound(i, sx);
            lemma_div_pos_is_pos(i, sx);
            lemma_multiply_divide_lt(i, sx, sy);
            assert(a.contains_cell(x, y));
        }
    }
}

/// Two well-formed rectangles with the same cells are the same rectangle: an
/// exact tiling determines the rectangle it rebuilds uniquely.
pub proof fn lemma_join_unique(a: Area, b: Area)
    requires
        a.wf(),
        b.wf(),
        forall|x: int, y: int|
            #![trigger a.contains_cell(x, y)]
            #![trigger b.contains_cell(x, y)]
            a.contains_cell(x, y) <==> b.contains_cell(x, y),
    ensures
        a == b,
{
    assert(a.contains_cell(a.pos_x as int, a.pos_y as int));
    assert(a.contains_cell(a.pos_x + a.size_x - 1, a.pos_y + a.size_y - 1));
    assert(b.contains_cell(b.pos_x as int, b.pos_y as int));
    assert(b.contains_cell(b.pos_x + b.size_x - 1, b.pos_y + b.size_y - 1));
    assert(b.contains_cell(a.pos_x as int, a.pos_y as int));
    assert(b.contains_cell(a.pos_x + a.size_x - 1, a.pos_y + a.size_y - 1));
    assert(a.contains_cell(b.pos_x as int, b.pos_y as int));
    assert(a.contains_cell(b.pos_x + b.size_x - 1, b.pos_y + b.size_y - 1));
}

/// Rejoining the grid of unit cells gives back exactly the original area:
/// the one well-formed rectangle the grid tiles is `a` itself.
pub proof fn lemma_grid_rejoin(a: Area, b: Area)
    requires
        a.wf(),
        b.wf(),
        exact_cover(unit_grid(a), b),
    ensures
        b == a,
{
    lemma_unit_grid_covers(a);
    assert forall|x: int, y: int|
        #![trigger a.contains_cell(x, y)]
        #![trigger b.contains_cell(x, y)]
    a.contains_cell(x, y) == b.contains_cell(x, y) by {
        let s = unit_grid(a);
        assert(a.contains_cell(x, y) <==> exists|i: int|
            0 <= i < s.len() && (#[trigger] s[i]).contains_cell(x, y));
        assert(b.contains_cell(x, y) <==> exists|i: int|
            0 <= i < s.len() && (#[trigger] s[i]).contains_cell(x, y));
    }
    lemma_join_unique(a, b);
}

/// The same, rejoining one round of `divide`: its parts tile exactly one
/// well-formed rectangle, the divided area itself.
pub proof fn lemma_divide_rejoin(a: Area, b: Area)
    requires
        a.wf(),
        b.wf(),
        exact_cover(a.spec_divide(), b),
    ensures
        b == a,
{
    lemma_divide_partitions(a);
    assert forall|x: int, y: int|
        #![trigger a.contains_cell(x, y)]
        #![trigger b.contains_cell(x, y)]
    a.contains_cell(x, y) == b.contains_cell(x, y) by {
        let s = a.spec_divide();
        assert(a.contains_cell(x, y) <==> exists|i: int|
            0 <= i < s.len() && (#[trigger] s[i]).contains_cell(x, y));
        assert(b.contains_cell(x, y) <==> exists|i: int|
            0 <= i < s.len() && (#[trigger] s[i]).contains_cell(x, y));
    }
    lemma_join_unique(a, b);
}

/// A unit square does not subdivide: `divide` returns it alone.
pub proof fn lemma_divide_unit(a: Area)
    requires
        a.wf(),
        a.size_x == 1,
        a.size_y == 1,
    ensures
        a.spec_divide() =~= seq![a],
{
}

/// Server-reported treasure count for an area.
#[derive(Debug, PartialEq, Eq, Structural, Clone, Copy)]
pub struct Explore {
    pub area: Area,
    pub amount: u64,
}

impl Explore {
    /// Estimated time to dig the whole area out, in milliseconds.
    pub open spec fn spec_cost(self, max_depth: u8) -> int {
        self.area.spec_size() * (max_depth as int / 3) * (AVG_DIG_MS as int)
    }

    pub fn cost(&self, max_depth: u8) -> (r: u128)
        requires
            self.area.size_x * self.area.size_y <= u64::MAX,
        ensures
            r == self.spec_cost(max_depth),
    {
        proof {
            assert(self.area.spec_size() * (max_depth as int / 3) <= u64::MAX * 85)
                by (nonlinear_arith)
                requires
                    0 <= self.area.spec_size() <= u64::MAX,
                    0 <= max_depth as int / 3 <= 85,
            ;
        }
        (self.area.size() as u128) * ((max_depth as u128) / 3) * AVG_DIG_MS
    }

    /// Whether this area still fits the remaining wall-clock budget,
    /// `elapsed_ms` milliseconds after the run started.
    pub fn is_managable(&self, elapsed_ms: u128, max_depth: u8) -> (r: bool)
        requires
            self.area.size_x * self.area.size_y <= u64::MAX,
            elapsed_ms <= TIME_LIMIT_MS,
        ensures
            r == (self.spec_cost(max_depth) < TIME_LIMIT_MS - elapsed_ms),
    {
        let remaining_time_ms: u128 = TIME_LIMIT_MS - elapsed_ms;
        self.cost(max_depth) < remaining_time_ms
    }
}

/// Explores are prioritised by density: treasure per cell, rounded down.
impl HeapOrd for Explore {
    open spec fn hwf(self) -> bool {
        self.area.wf()
    }

    open spec fn key(self) -> int {
        self.amount as int / self.area.spec_size()
    }

    fn key_of(&self) -> (k: u128) {
        proof {
            assert(1 <= self.area.spec_size()) by (nonlinear_arith)
                requires
                    1 <= self.area.size_x,
                    1 <= self.area.size_y,
            ;
        }
        (self.amount / self.area.size()) as u128
    }
}

/// What the explore queue's order means: from any queue of explores, `pop`
/// takes the element at `best_idx`, and that element has maximal density —
/// treasure per cell, rounded down — among all queued entries; ties go to
/// the one pushed last.
pub proof fn lemma_explore_pop_max_density(s: Seq<Explore>)
    requires
        s.len() > 0,
        forall|i: int| 0 <= i < s.len() ==> (#[trigger] s[i]).area.wf(),
    ensures
        forall|i: int|
            0 <= i < s.len() ==> #[trigger] (s[i].amount as int / s[i].area.spec_size())
                <= s[crate::heap::best_idx(s)].amount as int
                / s[crate::heap::best_idx(s)].area.spec_size(),
{
    crate::heap::lemma_best_idx(s);
    assert forall|i: int| 0 <= i < s.len() implies #[trigger] (s[i].amount as int
        / s[i].area.spec_size()) <= s[crate::heap::best_idx(s)].amount as int
        / s[crate::heap::best_idx(s)].area.spec_size() by {
        assert(s[i].key() <= s[crate::heap::best_idx(s)].key());
    }
}

/// Ticket authorising up to `dig_allowed - dig_used` further digs.
#[derive(Debug, Clone, Copy, PartialEq, Eq, Structural)]
pub struct License {
    pub id: u64,
    pub dig_allowed: u8,
    pub dig_used: u8,
}

impl License {
    pub open spec fn is_valid(self) -> bool {
        self.dig_used < self.dig_allowed
    }

    pub fn is_still_valid(&self) -> (r: bool)
        ensures
            r == self.is_valid(),
    {
        self.dig_allowed > self.dig_used
    }

    /// Record one dig made with this license; returns whether it can still
    /// be used. `dig_used` only ever grows.
    pub fn increment(&mut self) -> (r: bool)
        requires
            old(self).dig_used < u8::MAX,
        ensures
            final(self).id == old(self).id,
            final(self).dig_allowed == old(self).dig_allowed,
            final(self).dig_used == old(self).dig_used + 1,
            r == final(self).is_valid(),
    {
        self.dig_used = self.dig_used + 1;
        self.dig_allowed > self.dig_used
    }
}

/// Request payload for one dig at one cell and depth.
#[derive(Debug, Clone, Copy, PartialEq, Eq, Structural)]
pub struct Dig {
    pub license_id: u64,
    pub pos_x: u64,
    pub pos_y: u64,
    pub depth: u8,
}

} // verus!

//! Geometry of a bank of triangular band filters.
//!
//! A bank of `B` bands is laid out over `B + 2` bin positions, its edges.
//! Band `m` rises from 0 at edge `m` to 1 at edge `m + 1` and falls back to 0
//! at edge `m + 2`. Where the edges lie on the frequency axis is for the
//! caller to decide; the weights are exact fractions of bin distances.

use vstd::prelude::*;

verus! {

/// Size of a mel filter bank.
#[derive(Debug, Clone, Copy)]
pub struct MelFilterBankSettings {
    pub bands: usize,
    pub max_frequency: u32,
}

impl Default for MelFilterBankSettings {
    fn default() -> (s: Self)
        ensures
            s.bands == 82,
            s.max_frequency == 20_000,
    {
        MelFilterBankSettings { bands: 82, max_frequency: 20_000 }
    }
}

/// A filter weight as the fraction `num / den`.
#[derive(Debug, Clone, Copy, PartialEq, Eq, Structural)]
pub struct Weight {
    pub num: usize,
    pub den: usize,
}

impl Weight {
    /// The weight as a number.
    pub open spec fn value(self) -> real {
        (self.num as real) / (self.den as real)
    }
}

/// The edges never step back.
pub open spec fn sorted(edges: Seq<usize>) -> bool {
    forall|i: int, j: int| 0 <= i <= j < edges.len() ==> edges[i] <= edges[j]
}

/// Numerator of the triangle `(start, mid, end)` at `bin`.
pub open spec fn triangle_num(start: int, mid: int, end: int, bin: int) -> int {
    if start <= bin < mid {
        bin - start
    } else if mid <= bin < end {
        end - bin
    } else {
        0
    }
}

/// Denominator of the triangle `(start, mid, end)` at `bin`.
pub open spec fn triangle_den(start: int, mid: int, end: int, bin: int) -> int {
    if start <= bin < mid {
        mid - start
    } else if mid <= bin < end {
        end - mid
    } else {
        1
    }
}

/// Number of bands laid out over `edges`.
pub open spec fn band_count(edges: Seq<usize>) -> nat {
    if edges.len() >= 2 {
        (edges.len() - 2) as nat
    } else {
        0
    }
}

/// Whether `bin` lies in the support of band `m`.
pub open spec fn covers(edges: Seq<usize>, m: int, bin: int) -> bool {
    0 <= m < band_count(edges) && edges[m] <= bin < edges[m + 2]
}

/// Weight of band `m` at `bin`.
pub open spec fn band_weight(edges: Seq<usize>, m: int, bin: int) -> real {
    (triangle_num(edges[m] as int, edges[m + 1] as int, edges[m + 2] as int, bin) as real) / (
    triangle_den(edges[m] as int, edges[m + 1] as int, edges[m + 2] as int, bin) as real)
}

/// Sum of the weights that the first `upto` bands give to `bin`.
pub open spec fn column_weight(edges: Seq<usize>, bin: int, upto: nat) -> real
    decreases upto,
{
    if upto == 0 {
        0real
    } else {
        column_weight(edges, bin, (upto - 1) as nat) + band_weight(edges, upto - 1, bin)
    }
}

/// A band's weight lies between 0 and 1 and vanishes outside its support.
pub proof fn lemma_band_weight_bounds(edges: Seq<usize>, m: int, bin: int)
    requires
        sorted(edges),
        0 <= m < band_count(edges),
    ensures
        0real <= band_weight(edges, m, bin) <= 1real,
        !covers(edges, m, bin) ==> band_weight(edges, m, bin) == 0real,
{
    let n = triangle_num(edges[m] as int, edges[m + 1] as int, edges[m + 2] as int, bin);
    let d = triangle_den(edges[m] as int, edges[m + 1] as int, edges[m + 2] as int, bin);
    assert(0 <= n <= d && d > 0);
    assert(0real <= (n as real) / (d as real) <= 1real) by (nonlinear_arith)
        requires
            0 <= n <= d,
            d > 0,
    ;
    if !covers(edges, m, bin) {
        assert(n == 0);
        assert((0int as real) / (d as real) == 0real) by (nonlinear_arith)
            requires
                d > 0,
        ;
    }
}

/// What the first `upto` bands give to `bin`, by where `bin` lies.
proof fn lemma_column(edges: Seq<usize>, bin: int, upto: nat)
    requires
        sorted(edges),
        upto <= band_count(edges),
    ensures
        0real <= column_weight(edges, bin, upto) <= 1real,
        bin >= edges[upto as int + 1] ==> column_weight(edges, bin, upto) == 0real,
        upto >= 1 && edges[upto as int] <= bin < edges[upto as int + 1] ==> column_weight(
            edges,
            bin,
            upto,
        ) == band_weight(edges, upto - 1, bin),
        upto == 0 ==> column_weight(edges, bin, upto) == 0real,
    decreases upto,
{
    if upto > 0 {
        let u = (upto - 1) as nat;
        lemma_column(edges, bin, u);
        lemma_band_weight_bounds(edges, u as int, bin);
        let before = column_weight(edges, bin, u);
        let w = band_weight(edges, u as int, bin);
        let e0 = edges[u as int] as int;
        let e1 = edges[u as int + 1] as int;
        let e2 = edges[u as int + 2] as int;
        assert(e0 <= e1 <= e2);
        if bin >= e1 {
            // the earlier bands have ended
            assert(before == 0real);
        } else if bin >= e0 {
            // rising part of band `u`, falling part of band `u - 1`
            if u >= 1 {
                let p = edges[u - 1] as int;
                assert(p <= e0);
                let d = e1 - e0;
                assert(before == ((e1 - bin) as real) / (d as real));
                assert(w == ((bin - e0) as real) / (d as real));
                assert(((e1 - bin) as real) / (d as real) + ((bin - e0) as real) / (d as real)
                    == 1real) by (nonlinear_arith)
                    requires
                        d == e1 - e0,
                        d > 0,
                ;
            } else {
                assert(before == 0real);
            }
        } else {
            assert(!covers(edges, u as int, bin));
            assert(w == 0real);
        }
    }
}

/// Partition of unity: at every bin the weights of all the bands together
/// are at most 1.
pub proof fn lemma_partition_of_unity(edges: Seq<usize>, bin: int)
    requires
        sorted(edges),
    ensures
        0real <= column_weight(edges, bin, band_count(edges)) <= 1real,
{
    lemma_column(edges, bin, band_count(edges));
}

/// Bands that are not neighbours share no bin.
pub proof fn lemma_distant_bands_disjoint(edges: Seq<usize>, m1: int, m2: int, bin: int)
    requires
        sorted(edges),
        0 <= m1,
        m1 + 2 <= m2 < band_count(edges),
    ensures
        !(covers(edges, m1, bin) && covers(edges, m2, bin)),
{
    assert(edges[m1 + 2] <= edges[m2]);
}

/// One band: the bin at which it starts and its weights from there on.
pub struct Band {
    pub start: usize,
    pub weights: Vec<Weight>,
}

/// A bank of triangular filters over a sequence of bin edges.
pub struct MelFilterBank {
    edges: Vec<usize>,
    filter: Vec<Band>,
}

impl MelFilterBank {
    /// The bin positions that the bands are laid out over.
    pub closed spec fn edges(&self) -> Seq<usize> {
        self.edges@
    }

    /// The bands, first to last.
    pub closed spec fn filter(&self) -> Seq<Band> {
        self.filter@
    }

    /// Band `m` starts at edge `m`, spans to edge `m + 2` and holds in each
    /// slot the triangle's weight at that bin.
    pub open spec fn band_matches(edges: Seq<usize>, m: int, band: Band) -> bool {
        &&& band.start == edges[m]
        &&& band.weights@.len() == edges[m + 2] - edges[m]
        &&& forall|k: int|
            0 <= k < band.weights@.len() ==> {
                &&& (#[trigger] band.weights@[k]).num == triangle_num(
                    edges[m] as int,
                    edges[m + 1] as int,
                    edges[m + 2] as int,
                    edges[m] + k,
                )
                &&& band.weights@[k].den == triangle_den(
                    edges[m] as int,
                    edges[m + 1] as int,
                    edges[m + 2] as int,
                    edges[m] + k,
                )
            }
    }

    /// The bank holds one matching band for every three consecutive edges.
    pub open spec fn wf(&self) -> bool {
        &&& sorted(self.edges())
        &&& self.filter().len() == band_count(self.edges())
        &&& forall|m: int|
            0 <= m < self.filter().len() ==> Self::band_matches(
                self.edges(),
                m,
                #[trigger] self.filter()[m],
            )
    }

    /// Whether the edges never step back.
    pub fn is_sorted(edges: &[usize]) -> (ok: bool)
        ensures
            ok == sorted(edges@),
    {
        if edges.len() < 2 {
            return true;
        }
        let mut i: usize = 1;
        while i < edges.len()
            invariant
                1 <= i <= edges.len(),
                forall|a: int, b: int| 0 <= a <= b < i ==> edges@[a] <= edges@[b],
            decreases edges.len() - i,
        {
            if edges[i - 1] > edges[i] {
                return false;
            }
            i += 1;
        }
        true
    }

    /// No stored weight is more than 1.
    pub open spec fn weights_bounded(&self) -> bool {
        forall|m: int, k: int|
            0 <= m < self.filter().len() && 0 <= k < self.filter()[m].weights@.len() ==> {
                &&& (#[trigger] self.filter()[m].weights@[k]).den > 0
                &&& self.filter()[m].weights@[k].num <= self.filter()[m].weights@[k].den
            }
    }

    /// Lays a band over every three consecutive edges.
    ///
    /// The bank has one band less than there are pairs of neighbouring
    /// edges. Every weight lies between 0 and 1, at every bin the weights of
    /// all the bands together are at most 1, and bands that are not
    /// neighbours share no bin.
    pub fn init(edges: &[usize]) -> (bank: Self)
        requires
            sorted(edges@),
        ensures
            bank.wf(),
            bank.edges() == edges@,
            bank.filter().len() == band_count(edges@),
            bank.weights_bounded(),
            forall|m: int, bin: int|
                0 <= m < band_count(edges@) ==> 0real <= #[trigger] band_weight(edges@, m, bin)
                    <= 1real,
            forall|bin: int|
                0real <= #[trigger] column_weight(edges@, bin, band_count(edges@)) <= 1real,
            forall|m1: int, m2: int, bin: int|
                0 <= m1 && m1 + 2 <= m2 < band_count(edges@) ==> !(#[trigger] covers(
                    edges@,
                    m1,
                    bin,
                ) && #[trigger] covers(edges@, m2, bin)),
    {
        let mut kept: Vec<usize> = Vec::with_capacity(edges.len());
        let mut i: usize = 0;
        while i < edges.len()
            invariant
                i <= edges.len(),
                kept@ == edges@.subrange(0, i as int),
            decreases edges.len() - i,
        {
            kept.push(edges[i]);
            proof {
                assert(edges@.subrange(0, i as int).push(edges@[i as int]) =~= edges@.subrange(
                    0,
                    i + 1,
                ));
            }
            i += 1;
        }
        proof {
            assert(edges@.subrange(0, edges.len() as int) =~= edges@);
        }
        let mut filter: Vec<Band> = Vec::new();
        let mut m: usize = 0;
        while m + 2 < edges.len()
            invariant
                m <= band_count(edges@),
                sorted(edges@),
                filter@.len() == m,
                forall|b: int|
                    0 <= b < m ==> Self::band_matches(edges@, b, #[trigger] filter@[b]),
            decreases edges.len() - m,
        {
            let band = Self::triangle(edges[m], edges[m + 1], edges[m + 2]);
            filter.push(band);
            m += 1;
        }
        let bank = MelFilterBank { edges: kept, filter };
        proof {
            assert forall|m: int, bin: int| 0 <= m < band_count(edges@) implies 0real
                <= #[trigger] band_weight(edges@, m, bin) <= 1real by {
                lemma_band_weight_bounds(edges@, m, bin);
            }
            assert forall|bin: int|
                0real <= #[trigger] column_weight(edges@, bin, band_count(edges@)) <= 1real by {
                lemma_partition_of_unity(edges@, bin);
            }
            assert forall|m1: int, m2: int, bin: int|
                0 <= m1 && m1 + 2 <= m2 < band_count(edges@) implies !(#[trigger] covers(
                edges@,
                m1,
                bin,
            ) && #[trigger] covers(edges@, m2, bin)) by {
                lemma_distant_bands_disjoint(edges@, m1, m2, bin);
            }
            assert forall|m: int, k: int|
                0 <= m < bank.filter().len() && 0 <= k < bank.filter()[m].weights@.len() implies {
                &&& (#[trigger] bank.filter()[m].weights@[k]).den > 0
                &&& bank.filter()[m].weights@[k].num <= bank.filter()[m].weights@[k].den
            } by {
                assert(Self::band_matches(edges@, m, bank.filter()[m]));
            }
        }
        bank
    }

    /// The weights of the triangle `(start, mid, end)` at the bins from
    /// `start` up to `end`.
    fn triangle(start: usize, mid: usize, end: usize) -> (band: Band)
        requires
            start <= mid <= end,
        ensures
            band.start == start,
            band.weights@.len() == end - start,
            forall|k: int|
                0 <= k < band.weights@.len() ==> {
                    &&& (#[trigger] band.weights@[k]).num == triangle_num(
                        start as int,
                        mid as int,
                        end as int,
                        start + k,
                    )
                    &&& band.weights@[k].den == triangle_den(
                        start as int,
                        mid as int,
                        end as int,
                        start + k,
                    )
                },
    {
        let mut weights: Vec<Weight> = Vec::new();
        let mut k: usize = start;
        while k < mid
            invariant
                start <= k <= mid <= end,
                weights@.len() == k - start,
                forall|j: int|
                    0 <= j < weights@.len() ==> {
                        &&& (#[trigger] weights@[j]).num == triangle_num(
                            start as int,
                            mid as int,
                            end as int,
                            start + j,
                        )
                        &&& weights@[j].den == triangle_den(
                            start as int,
                            mid as int,
                            end as int,
                            start + j,
                        )
                    },
            decreases mid - k,
        {
            weights.push(Weight { num: k - start, den: mid - start });
            k += 1;
        }
        while k < end
            invariant
                start <= mid <= k <= end,
                weights@.len() == k - start,
                forall|j: int|
                    0 <= j < weights@.len() ==> {
                        &&& (#[trigger] weights@[j]).num == triangle_num(
                            start as int,
                            mid as int,
                            end as int,
                            start + j,
                        )
                        &&& weights@[j].den == triangle_den(
                            start as int,
                            mid as int,
                            end as int,
                            start + j,
                        )
                    },
            decreases end - k,
        {
            weights.push(Weight { num: end - k, den: end - mid });
            k += 1;
        }
        Band { start, weights }
    }

    /// Number of bands.
    pub fn bands(&self) -> (n: usize)
        ensures
            n == self.filter().len(),
    {
        self.filter.len()
    }

    /// Band `m`.
    pub fn band(&self, m: usize) -> (band: &Band)
        requires
            m < self.filter().len(),
        ensures
            *band == self.filter()[m as int],
    {
        &self.filter[m]
    }

    /// In a well-formed bank the stored weight of band `m` at `bin` is the
    /// band's weight there.
    pub proof fn lemma_stored_weight(&self, m: int, bin: int)
        requires
            self.wf(),
            covers(self.edges(), m, bin),
        ensures
            self.filter()[m].weights@[bin - self.edges()[m]].value() == band_weight(
                self.edges(),
                m,
                bin,
            ),
    {
        let band = self.filter()[m];
        assert(Self::band_matches(self.edges(), m, band));
        let k = bin - self.edges()[m];
        assert(band.weights@[k].num == triangle_num(
            self.edges()[m] as int,
            self.edges()[m + 1] as int,
            self.edges()[m + 2] as int,
            self.edges()[m] + k,
        ));
    }
}

} // verus!

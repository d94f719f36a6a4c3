use vstd::arithmetic::div_mod::{lemma_div_plus_one, lemma_div_pos_is_pos, lemma_fundamental_div_mod, lemma_mod_pos_bound};
use vstd::prelude::*;

verus! {

/// An instant, as signed nanoseconds of TAI from the time scale's origin.
#[derive(Clone, Copy, Debug, PartialEq, Eq, Structural, PartialOrd, Ord, Hash)]
pub struct Epoch {
    pub tai_ns: i128,
}

/// The family of polynomials an archive's coefficients belong to.
#[derive(Clone, Copy, Debug, PartialEq, Eq, Structural)]
pub enum InterpolationKind {
    ChebyshevSeries,
    HermiteSeries,
    LagrangeSeries,
    Polynomial,
}

/// How the segments of an archive are laid out in time.
#[derive(Clone, Debug)]
pub enum Evenness {
    /// Every segment lasts `duration_ns` nanoseconds.
    Even { duration_ns: i64 },
    /// Segment `i` starts `indexes[i]` nanoseconds after the reference epoch
    /// and ends where segment `i + 1` starts.
    Uneven { indexes: Vec<i64> },
}

/// The coefficient segments of an archive, in the order of time, and their spacing.
#[derive(Clone, Debug)]
pub struct SplineSet<S> {
    pub evenness: Evenness,
    pub segments: Vec<S>,
}

/// One body's stored trajectory: segments measured from a reference epoch.
#[derive(Clone, Debug)]
pub struct Ephemeris<S> {
    pub ref_epoch: Epoch,
    pub interpolation_kind: InterpolationKind,
    pub backward: bool,
    pub splines: SplineSet<S>,
}

/// Why an archive cannot be built or cannot answer a request.
#[derive(Clone, Copy, Debug, PartialEq, Eq, Structural)]
pub enum EphemerisError {
    /// The archive's interpolation kind is not one this library evaluates.
    UnsupportedInterpolation,
    /// The requested epoch lies outside the archive's time span.
    OutOfRangeEpoch,
    /// The segments and their spacing contradict each other.
    CorruptSplineData,
}

/// The segment that covers a requested epoch, and where in it the epoch lies.
#[derive(Clone, Copy, Debug, PartialEq, Eq, Structural)]
pub struct SegmentLocation {
    /// Index of the segment in the archive.
    pub index: usize,
    /// Nanoseconds from the segment's start to the requested epoch.
    pub elapsed_ns: i64,
    /// Length of the segment, in nanoseconds.
    pub duration_ns: i64,
}

/// Boundaries that start at zero and strictly increase.
pub open spec fn boundaries_ok(b: Seq<i64>) -> bool {
    &&& b.len() >= 2
    &&& b[0] == 0
    &&& forall|i: int, j: int| 0 <= i < j < b.len() ==> b[i] < b[j]
}

/// Segment `i` of evenly spaced segments starts at `i * d` and ends at
/// `(i + 1) * d`; going forward an instant on a boundary belongs to the
/// later segment, going backward to the earlier one. The two ends of the
/// archive belong to its first and last segments.
pub open spec fn even_index(off: int, d: int, n: int, backward: bool) -> int {
    if backward {
        if off == 0 {
            0
        } else {
            (off + d - 1) / d - 1
        }
    } else {
        if off / d >= n {
            n - 1
        } else {
            off / d
        }
    }
}

/// Segment `i` of explicitly bounded segments covers `[b[i], b[i + 1])`;
/// the last one holds its right end too.
pub open spec fn uneven_covers(b: Seq<i64>, off: int, i: int) -> bool {
    &&& 0 <= i < b.len() - 1
    &&& b[i] <= off
    &&& (off < b[i + 1] || (i == b.len() - 2 && off == b[i + 1]))
}

impl<S> Ephemeris<S> {
    /// Number of segments.
    pub open spec fn count(&self) -> int {
        self.splines.segments@.len() as int
    }

    /// Nanoseconds from the reference epoch to the end of the last segment.
    pub open spec fn span(&self) -> int {
        match self.splines.evenness {
            Evenness::Even { duration_ns } => self.count() * duration_ns,
            Evenness::Uneven { indexes } => indexes@.last() as int,
        }
    }

    pub open spec fn first_ns(&self) -> int {
        self.ref_epoch.tai_ns as int
    }

    pub open spec fn last_ns(&self) -> int {
        self.ref_epoch.tai_ns + self.span()
    }

    pub open spec fn start_ns(&self) -> int {
        if self.first_ns() > self.last_ns() {
            self.last_ns()
        } else {
            self.first_ns()
        }
    }

    pub open spec fn end_ns(&self) -> int {
        if self.first_ns() > self.last_ns() {
            self.first_ns()
        } else {
            self.last_ns()
        }
    }

    /// At least one segment, a spacing consistent with the segments, and a
    /// time span that an `Epoch` can represent.
    pub open spec fn wf(&self) -> bool {
        &&& self.count() >= 1
        &&& match self.splines.evenness {
            Evenness::Even { duration_ns } => duration_ns > 0,
            Evenness::Uneven { indexes } => {
                &&& indexes@.len() == self.count() + 1
                &&& boundaries_ok(indexes@)
            },
        }
        &&& self.span() <= i128::MAX
        &&& self.last_ns() <= i128::MAX
    }

    /// Whether a request at `req` is answered.
    pub open spec fn accepts(&self, req: Epoch) -> bool {
        &&& self.interpolation_kind == InterpolationKind::ChebyshevSeries
        &&& self.start_ns() <= req.tai_ns <= self.end_ns()
    }

    /// The error a request at `req` gets, when it is not answered.
    pub open spec fn refusal(&self, req: Epoch) -> EphemerisError {
        if self.interpolation_kind != InterpolationKind::ChebyshevSeries {
            EphemerisError::UnsupportedInterpolation
        } else {
            EphemerisError::OutOfRangeEpoch
        }
    }

    /// `loc` is where the epoch `req` lies in this archive.
    pub open spec fn locates(&self, req: Epoch, loc: SegmentLocation) -> bool {
        let off = req.tai_ns - self.ref_epoch.tai_ns;
        match self.splines.evenness {
            Evenness::Even { duration_ns } => {
                let i = even_index(off, duration_ns as int, self.count(), self.backward);
                &&& loc.index == i
                &&& loc.elapsed_ns == off - i * duration_ns
                &&& loc.duration_ns == duration_ns
            },
            Evenness::Uneven { indexes } => {
                &&& uneven_covers(indexes@, off, loc.index as int)
                &&& loc.elapsed_ns == off - indexes@[loc.index as int]
                &&& loc.duration_ns == indexes@[loc.index + 1] - indexes@[loc.index as int]
            },
        }
    }
}

/// Quotient and remainder of a non-negative `x` by a positive `d`.
proof fn lemma_div_parts(x: int, d: int)
    requires
        0 <= x,
        0 < d,
    ensures
        x == d * (x / d) + x % d,
        0 <= x % d < d,
        0 <= x / d,
{
    lemma_fundamental_div_mod(x, d);
    lemma_mod_pos_bound(x, d);
    lemma_div_pos_is_pos(x, d);
}

/// Where an offset of `off` nanoseconds lies among `n` segments of `d`
/// nanoseconds each.
fn locate_even(off: i128, d: i64, n: usize, backward: bool) -> (r: SegmentLocation)
    requires
        d > 0,
        n >= 1,
        0 <= off <= n * d,
    ensures
        ({
            let i = even_index(off as int, d as int, n as int, backward);
            &&& r.index == i
            &&& r.elapsed_ns == off - i * d
            &&& r.duration_ns == d
        }),
        0 <= r.index < n,
{
    let dd = d as i128;
    let nn = n as i128;
    if backward {
        if off == 0 {
            return SegmentLocation { index: 0, elapsed_ns: 0, duration_ns: d };
        }
        let q = (off - 1) / dd;
        proof {
            let x: int = off - 1;
            let di: int = d as int;
            let qi: int = q as int;
            lemma_div_parts(x, di);
            lemma_div_plus_one(x, di);
            assert((off + d - 1) / di == (di + x) / di);
            assert(qi < n) by (nonlinear_arith)
                requires
                    x == di * qi + x % di,
                    0 <= x % di,
                    x < n * di,
                    di > 0,
            ;
            assert(0 <= qi * di <= x) by (nonlinear_arith)
                requires
                    x == di * qi + x % di,
                    0 <= x % di,
                    0 <= qi,
                    di > 0,
            ;
            assert(off - qi * di == x % di + 1) by (nonlinear_arith)
                requires
                    x == di * qi + x % di,
                    x == off - 1,
            ;
        }
        let elapsed = off - q * dd;
        SegmentLocation { index: q as usize, elapsed_ns: elapsed as i64, duration_ns: d }
    } else {
        let q = off / dd;
        proof {
            let x: int = off as int;
            let di: int = d as int;
            let qi: int = q as int;
            lemma_div_parts(x, di);
            assert(qi <= n) by (nonlinear_arith)
                requires
                    x == di * qi + x % di,
                    0 <= x % di,
                    x <= n * di,
                    di > 0,
            ;
            assert(0 <= qi * di <= x) by (nonlinear_arith)
                requires
                    x == di * qi + x % di,
                    0 <= x % di,
                    0 <= qi,
                    di > 0,
            ;
            assert(off - qi * di == x % di) by (nonlinear_arith)
                requires
                    x == di * qi + x % di,
                    x == off,
            ;
        }
        if q >= nn {
            let i = n - 1;
            proof {
                assert(off == n * d);
                assert(off - (i as int) * d == d) by (nonlinear_arith)
                    requires
                        off == n * d,
                        i == n - 1,
            ;
            }
            SegmentLocation { index: i, elapsed_ns: d, duration_ns: d }
        } else {
            let elapsed = off - q * dd;
            SegmentLocation { index: q as usize, elapsed_ns: elapsed as i64, duration_ns: d }
        }
    }
}

/// Where an offset of `off` nanoseconds lies among segments bounded by `b`,
/// found by bisection.
fn locate_uneven(off: i128, b: &Vec<i64>) -> (r: SegmentLocation)
    requires
        boundaries_ok(b@),
        0 <= off <= b@.last(),
    ensures
        uneven_covers(b@, off as int, r.index as int),
        r.elapsed_ns == off - b@[r.index as int],
        r.duration_ns == b@[r.index + 1] - b@[r.index as int],
{
    let n = b.len() - 1;
    let mut lo: usize = 0;
    let mut hi: usize = n - 1;
    while lo < hi
        invariant
            n == b@.len() - 1,
            boundaries_ok(b@),
            0 <= off <= b@.last(),
            lo <= hi < n,
            b@[lo as int] <= off,
            hi == n - 1 || off < b@[hi + 1],
        decreases hi - lo,
    {
        let mid = lo + (hi - lo + 1) / 2;
        if (b[mid] as i128) <= off {
            lo = mid;
        } else {
            hi = mid - 1;
        }
    }
    assert(b@[0] <= b@[lo as int]);
    assert(b@[lo as int] < b@[lo + 1]);
    SegmentLocation {
        index: lo,
        elapsed_ns: (off - b[lo] as i128) as i64,
        duration_ns: b[lo + 1] - b[lo],
    }
}

impl<S> Ephemeris<S> {
    /// Builds an archive, refusing segments and spacing that contradict
    /// each other (see `is_well_formed`).
    pub fn new(
        ref_epoch: Epoch,
        interpolation_kind: InterpolationKind,
        backward: bool,
        splines: SplineSet<S>,
    ) -> (r: Result<Ephemeris<S>, EphemerisError>)
        ensures
            r is Ok <==> (Ephemeris { ref_epoch, interpolation_kind, backward, splines }).wf(),
            r matches Ok(e) ==> e == (Ephemeris { ref_epoch, interpolation_kind, backward, splines }),
            r matches Err(err) ==> err == EphemerisError::CorruptSplineData,
    {
        let e = Ephemeris { ref_epoch, interpolation_kind, backward, splines };
        if e.is_well_formed() {
            Ok(e)
        } else {
            Err(EphemerisError::CorruptSplineData)
        }
    }

    /// Whether the segments and their spacing agree: at least one segment;
    /// a positive duration, or boundaries that start at zero, strictly
    /// increase and number one more than the segments; and an end that an
    /// `Epoch` can represent.
    pub fn is_well_formed(&self) -> (r: bool)
        ensures
            r == self.wf(),
    {
        let n = self.splines.segments.len();
        if n == 0 {
            return false;
        }
        let span: i128 = match &self.splines.evenness {
            Evenness::Even { duration_ns } => {
                if *duration_ns <= 0 {
                    return false;
                }
                proof {
                    let d = *duration_ns as int;
                    assert(0 < n * d < 0x8000_0000_0000_0000_0000_0000_0000_0000) by (nonlinear_arith)
                        requires
                            1 <= n <= usize::MAX,
                            0 < d <= i64::MAX,
                    ;
                }
                (n as i128) * (*duration_ns as i128)
            },
            Evenness::Uneven { indexes } => {
                if indexes.len() == 0 || indexes.len() - 1 != n || indexes[0] != 0 {
                    return false;
                }
                let mut k: usize = 1;
                while k < indexes.len()
                    invariant
                        self.splines.evenness == (Evenness::Uneven { indexes: *indexes }),
                        n == self.count(),
                        indexes@.len() == n + 1,
                        1 <= k <= indexes@.len(),
                        indexes@[0] == 0,
                        forall|i: int, j: int|
                            0 <= i < j < k ==> #[trigger] indexes@[i] < #[trigger] indexes@[j],
                    decreases indexes@.len() - k,
                {
                    if indexes[k - 1] >= indexes[k] {
                        proof {
                            let i: int = k - 1;
                            let j: int = k as int;
                            assert(0 <= i < j < indexes@.len());
                            assert(!(indexes@[i] < indexes@[j]));
                            assert(!boundaries_ok(indexes@));
                        }
                        return false;
                    }
                    proof {
                        assert forall|i: int, j: int| 0 <= i < j < k + 1 implies
                            #[trigger] indexes@[i] < #[trigger] indexes@[j] by {
                            if j == k && i < k - 1 {
                                assert(indexes@[i] < indexes@[k - 1]);
                            }
                        }
                    }
                    k = k + 1;
                }
                assert(indexes@.last() >= 0) by {
                    assert(indexes@[0] < indexes@[indexes@.len() - 1]);
                }
                indexes[n] as i128
            },
        };
        assert(span == self.span());
        self.ref_epoch.tai_ns <= i128::MAX - span
    }

    /// Nanoseconds from the reference epoch to the end of the last segment.
    fn span_ns(&self) -> (r: i128)
        requires
            self.wf(),
        ensures
            r == self.span(),
            r >= 0,
    {
        let n = self.splines.segments.len();
        match &self.splines.evenness {
            Evenness::Even { duration_ns } => {
                proof {
                    let d = *duration_ns as int;
                    assert(0 < n * d < 0x8000_0000_0000_0000_0000_0000_0000_0000) by (nonlinear_arith)
                        requires
                            1 <= n <= usize::MAX,
                            0 < d <= i64::MAX,
                    ;
                }
                (n as i128) * (*duration_ns as i128)
            },
            Evenness::Uneven { indexes } => {
                assert(indexes@[0] < indexes@[indexes@.len() - 1]);
                indexes[n] as i128
            },
        }
    }

    /// The span of a well-formed archive is not negative.
    proof fn lemma_span_nonneg(&self)
        requires
            self.wf(),
        ensures
            0 <= self.span() <= i128::MAX,
            self.start_ns() == self.first_ns(),
            self.end_ns() == self.last_ns(),
    {
        match self.splines.evenness {
            Evenness::Even { duration_ns } => {
                assert(0 <= self.count() * duration_ns) by (nonlinear_arith)
                    requires
                        1 <= self.count(),
                        0 < duration_ns,
                ;
            },
            Evenness::Uneven { indexes } => {
                assert(indexes@[0] < indexes@[indexes@.len() - 1]);
            },
        }
    }

    /// The epoch of offset zero, where the archive's data begins; for an
    /// archive generated backward this is its chronological end.
    pub fn first_epoch(&self) -> (r: Epoch)
        ensures
            r == self.ref_epoch,
    {
        self.ref_epoch
    }

    /// The epoch where the archive's data ends: the reference epoch shifted
    /// by the total span of its segments.
    pub fn last_epoch(&self) -> (r: Epoch)
        requires
            self.wf(),
        ensures
            r.tai_ns == self.last_ns(),
            self.first_ns() <= r.tai_ns,
    {
        let span = self.span_ns();
        Epoch { tai_ns: self.ref_epoch.tai_ns + span }
    }

    /// The earlier of the first and last epochs.
    pub fn start_epoch(&self) -> (r: Epoch)
        requires
            self.wf(),
        ensures
            r.tai_ns == self.start_ns(),
            r.tai_ns <= self.end_ns(),
    {
        let first = self.first_epoch();
        let last = self.last_epoch();
        if first.tai_ns > last.tai_ns {
            last
        } else {
            first
        }
    }

    /// The later of the first and last epochs.
    pub fn end_epoch(&self) -> (r: Epoch)
        requires
            self.wf(),
        ensures
            r.tai_ns == self.end_ns(),
            self.start_ns() <= r.tai_ns,
    {
        let first = self.first_epoch();
        let last = self.last_epoch();
        if first.tai_ns > last.tai_ns {
            first
        } else {
            last
        }
    }

    /// Whether this archive's interpolation kind is one this library evaluates.
    pub fn is_supported(&self) -> (r: bool)
        ensures
            r == (self.interpolation_kind == InterpolationKind::ChebyshevSeries),
    {
        match self.interpolation_kind {
            InterpolationKind::ChebyshevSeries => true,
            _ => false,
        }
    }

    /// The segment covering `req` and where in it `req` lies. Refuses an
    /// unsupported interpolation kind first, then an epoch outside
    /// `[start_epoch, end_epoch]`.
    pub fn segment_at(&self, req: Epoch) -> (r: Result<SegmentLocation, EphemerisError>)
        requires
            self.wf(),
        ensures
            r is Ok <==> self.accepts(req),
            r matches Ok(loc) ==> self.locates(req, loc) && loc.index < self.count(),
            r matches Err(e) ==> e == self.refusal(req),
    {
        if !self.is_supported() {
            return Err(EphemerisError::UnsupportedInterpolation);
        }
        let start = self.start_epoch();
        let end = self.end_epoch();
        if req.tai_ns < start.tai_ns || req.tai_ns > end.tai_ns {
            return Err(EphemerisError::OutOfRangeEpoch);
        }
        proof {
            self.lemma_span_nonneg();
        }
        let off = req.tai_ns - self.ref_epoch.tai_ns;
        match &self.splines.evenness {
            Evenness::Even { duration_ns } => {
                Ok(locate_even(off, *duration_ns, self.splines.segments.len(), self.backward))
            },
            Evenness::Uneven { indexes } => Ok(locate_uneven(off, indexes)),
        }
    }
}

impl SegmentLocation {
    /// Numerator of the normalized time `2 * elapsed / duration - 1` over the
    /// denominator `duration_ns`: the segment maps onto `[-1, 1]`.
    pub fn normalized_numerator(&self) -> (r: i128)
        ensures
            r == 2 * self.elapsed_ns - self.duration_ns,
    {
        2 * (self.elapsed_ns as i128) - (self.duration_ns as i128)
    }
}

/// The start of an archive never lies after its end, and neither depends on
/// the direction in which the archive was generated.
pub proof fn lemma_start_not_after_end<S>(e: Ephemeris<S>, flipped: Ephemeris<S>)
    requires
        e.wf(),
        flipped == (Ephemeris { backward: !e.backward, ..e }),
    ensures
        e.start_ns() <= e.end_ns(),
        flipped.wf(),
        flipped.start_ns() == e.start_ns(),
        flipped.end_ns() == e.end_ns(),
{
}

/// A supported archive answers at its start and at its end epochs.
pub proof fn lemma_ends_are_answered<S>(e: Ephemeris<S>)
    requires
        e.wf(),
        e.interpolation_kind == InterpolationKind::ChebyshevSeries,
    ensures
        e.accepts(Epoch { tai_ns: e.start_ns() as i128 }),
        e.accepts(Epoch { tai_ns: e.end_ns() as i128 }),
{
    e.lemma_span_nonneg();
}

/// A supported archive refuses every epoch before its start or after its
/// end as out of range.
pub proof fn lemma_outside_is_out_of_range<S>(e: Ephemeris<S>, req: Epoch)
    requires
        e.wf(),
        e.interpolation_kind == InterpolationKind::ChebyshevSeries,
        req.tai_ns < e.start_ns() || req.tai_ns > e.end_ns(),
    ensures
        !e.accepts(req),
        e.refusal(req) == EphemerisError::OutOfRangeEpoch,
{
}

/// Every answered epoch lies within its segment: the elapsed time is between
/// zero and the segment's positive duration, so the normalized time lies in
/// `[-1, 1]`.
pub proof fn lemma_location_within_segment<S>(e: Ephemeris<S>, req: Epoch, loc: SegmentLocation)
    requires
        e.wf(),
        e.accepts(req),
        e.locates(req, loc),
    ensures
        0 <= loc.index < e.count(),
        0 < loc.duration_ns,
        0 <= loc.elapsed_ns <= loc.duration_ns,
{
    e.lemma_span_nonneg();
    let off = req.tai_ns - e.ref_epoch.tai_ns;
    match e.splines.evenness {
        Evenness::Even { duration_ns } => {
            let d = duration_ns as int;
            let n = e.count();
            if e.backward {
                if off != 0 {
                    let x = off - 1;
                    lemma_div_parts(x, d);
                    lemma_div_plus_one(x, d);
                    assert((off + d - 1) / d == (d + x) / d);
                    let q = x / d;
                    assert(q < n && off - q * d == x % d + 1) by (nonlinear_arith)
                        requires
                            x == d * q + x % d,
                            0 <= x % d,
                            x == off - 1,
                            x < n * d,
                            d > 0,
                    ;
                }
            } else {
                lemma_div_parts(off, d);
                let q = off / d;
                assert(q <= n && off - q * d == off % d) by (nonlinear_arith)
                    requires
                        off == d * q + off % d,
                        0 <= off % d,
                        off <= n * d,
                        d > 0,
                ;
                if q >= n {
                    assert(off - (n - 1) * d == d) by (nonlinear_arith)
                        requires
                            off == n * d,
                    ;
                }
            }
        },
        Evenness::Uneven { indexes } => {
            let i = loc.index as int;
            assert(indexes@[i] < indexes@[i + 1]);
        },
    }
}

/// On a boundary `k * d` between two evenly spaced segments, an archive
/// generated forward assigns the instant to the later segment `k`, one
/// generated backward to the earlier segment `k - 1`.
pub proof fn lemma_even_boundary_owner(k: int, d: int, n: int)
    requires
        0 < k < n,
        0 < d,
    ensures
        even_index(k * d, d, n, false) == k,
        even_index(k * d, d, n, true) == k - 1,
{
    vstd::arithmetic::div_mod::lemma_div_by_multiple(k, d);
    assert(k * d > 0) by (nonlinear_arith)
        requires
            0 < k,
            0 < d,
    ;
    lemma_div_plus_one(k * d - 1, d);
    assert(k * d + d - 1 == d + (k * d - 1));
    lemma_div_parts(k * d - 1, d);
    let q = (k * d - 1) / d;
    assert(q == k - 1) by (nonlinear_arith)
        requires
            k * d - 1 == d * q + (k * d - 1) % d,
            0 <= (k * d - 1) % d < d,
            d > 0,
    ;
}

/// With strictly increasing boundaries, at most one segment covers an offset.
pub proof fn lemma_uneven_cover_unique(b: Seq<i64>, off: int, i: int, j: int)
    requires
        boundaries_ok(b),
        uneven_covers(b, off, i),
        uneven_covers(b, off, j),
    ensures
        i == j,
{
    if i < j {
        assert(b[i + 1] <= b[j]) by {
            if i + 1 < j {
                assert(b[i + 1] < b[j]);
            }
        }
        assert(b[j] < b[j + 1]);
    } else if j < i {
        assert(b[j + 1] <= b[i]) by {
            if j + 1 < i {
                assert(b[j + 1] < b[i]);
            }
        }
        assert(b[i] < b[i + 1]);
    }
}

} // verus!

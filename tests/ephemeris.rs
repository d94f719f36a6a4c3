use anise_core::ephemeris::{
    Ephemeris, EphemerisError, Epoch, Evenness, InterpolationKind, SegmentLocation, SplineSet,
};
use anise_core::math::Aberration;

const DAY_NS: i64 = 86_400_000_000_000;
const T0: i128 = 3_913_056_000_000_000_000;

fn even_archive(backward: bool, kind: InterpolationKind) -> Ephemeris<u32> {
    let splines = SplineSet { evenness: Evenness::Even { duration_ns: DAY_NS }, segments: vec![0, 1, 2] };
    Ephemeris::new(Epoch { tai_ns: T0 }, kind, backward, splines).unwrap()
}

fn uneven_archive() -> Ephemeris<u32> {
    let splines = SplineSet {
        evenness: Evenness::Uneven { indexes: vec![0, 10, 30, 60] },
        segments: vec![0, 1, 2],
    };
    Ephemeris::new(Epoch { tai_ns: -50 }, InterpolationKind::ChebyshevSeries, false, splines).unwrap()
}

fn at(ns: i128) -> Epoch {
    Epoch { tai_ns: ns }
}

#[test]
fn forward_even_epochs() {
    let e = even_archive(false, InterpolationKind::ChebyshevSeries);
    assert_eq!(e.first_epoch(), at(T0));
    assert_eq!(e.last_epoch(), at(T0 + 3 * DAY_NS as i128));
    assert_eq!(e.start_epoch(), at(T0));
    assert_eq!(e.end_epoch(), at(T0 + 3 * DAY_NS as i128));
}

#[test]
fn forward_even_mid_segment() {
    let e = even_archive(false, InterpolationKind::ChebyshevSeries);
    let loc = e.segment_at(at(T0 + 3 * DAY_NS as i128 / 2)).unwrap();
    assert_eq!(loc, SegmentLocation { index: 1, elapsed_ns: DAY_NS / 2, duration_ns: DAY_NS });
    assert_eq!(loc.normalized_numerator(), 0);
}

#[test]
fn backward_even_epochs_unchanged() {
    let f = even_archive(false, InterpolationKind::ChebyshevSeries);
    let b = even_archive(true, InterpolationKind::ChebyshevSeries);
    assert_eq!(b.first_epoch(), at(T0));
    assert_eq!(b.last_epoch(), at(T0 + 3 * DAY_NS as i128));
    assert_eq!(b.start_epoch(), f.start_epoch());
    assert_eq!(b.end_epoch(), f.end_epoch());
    assert!(b.start_epoch() <= b.end_epoch());
}

#[test]
fn boundary_owner_depends_on_direction() {
    let f = even_archive(false, InterpolationKind::ChebyshevSeries);
    let b = even_archive(true, InterpolationKind::ChebyshevSeries);
    let edge = at(T0 + DAY_NS as i128);
    let lf = f.segment_at(edge).unwrap();
    let lb = b.segment_at(edge).unwrap();
    assert_eq!(lf, SegmentLocation { index: 1, elapsed_ns: 0, duration_ns: DAY_NS });
    assert_eq!(lb, SegmentLocation { index: 0, elapsed_ns: DAY_NS, duration_ns: DAY_NS });
    assert_eq!(lf.normalized_numerator(), -(DAY_NS as i128));
    assert_eq!(lb.normalized_numerator(), DAY_NS as i128);
}

#[test]
fn start_and_end_are_answered() {
    for backward in [false, true] {
        let e = even_archive(backward, InterpolationKind::ChebyshevSeries);
        let first = e.segment_at(e.start_epoch()).unwrap();
        let last = e.segment_at(e.end_epoch()).unwrap();
        assert_eq!(first.index, 0);
        assert_eq!(last.index, 2);
    }
    let u = uneven_archive();
    assert_eq!(u.segment_at(u.start_epoch()).unwrap().index, 0);
    assert_eq!(u.segment_at(u.end_epoch()).unwrap(), SegmentLocation { index: 2, elapsed_ns: 30, duration_ns: 30 });
}

#[test]
fn outside_epochs_are_out_of_range() {
    let e = even_archive(false, InterpolationKind::ChebyshevSeries);
    assert_eq!(e.segment_at(at(T0 - 1)), Err(EphemerisError::OutOfRangeEpoch));
    assert_eq!(e.segment_at(at(T0 + 3 * DAY_NS as i128 + 1)), Err(EphemerisError::OutOfRangeEpoch));
    let u = uneven_archive();
    assert_eq!(u.segment_at(at(-51)), Err(EphemerisError::OutOfRangeEpoch));
    assert_eq!(u.segment_at(at(11)), Err(EphemerisError::OutOfRangeEpoch));
}

#[test]
fn unsupported_kind_is_refused_first() {
    let e = even_archive(false, InterpolationKind::HermiteSeries);
    assert!(!e.is_supported());
    assert_eq!(e.segment_at(at(T0)), Err(EphemerisError::UnsupportedInterpolation));
    assert_eq!(e.segment_at(at(T0 - 1)), Err(EphemerisError::UnsupportedInterpolation));
}

#[test]
fn uneven_segments_are_left_closed() {
    let u = uneven_archive();
    assert_eq!(u.last_epoch(), at(10));
    assert_eq!(u.segment_at(at(-50)).unwrap(), SegmentLocation { index: 0, elapsed_ns: 0, duration_ns: 10 });
    assert_eq!(u.segment_at(at(-41)).unwrap(), SegmentLocation { index: 0, elapsed_ns: 9, duration_ns: 10 });
    assert_eq!(u.segment_at(at(-40)).unwrap(), SegmentLocation { index: 1, elapsed_ns: 0, duration_ns: 20 });
    assert_eq!(u.segment_at(at(-20)).unwrap(), SegmentLocation { index: 2, elapsed_ns: 0, duration_ns: 30 });
    assert_eq!(u.segment_at(at(-5)).unwrap().normalized_numerator(), 0);
}

#[test]
fn corrupt_spline_data_is_refused() {
    let kind = InterpolationKind::ChebyshevSeries;
    let empty: SplineSet<u32> = SplineSet { evenness: Evenness::Even { duration_ns: DAY_NS }, segments: vec![] };
    assert_eq!(Ephemeris::new(at(0), kind, false, empty).err(), Some(EphemerisError::CorruptSplineData));
    let zero = SplineSet { evenness: Evenness::Even { duration_ns: 0 }, segments: vec![1u32] };
    assert_eq!(Ephemeris::new(at(0), kind, false, zero).err(), Some(EphemerisError::CorruptSplineData));
    let count = SplineSet { evenness: Evenness::Uneven { indexes: vec![0, 5] }, segments: vec![1u32, 2] };
    assert_eq!(Ephemeris::new(at(0), kind, false, count).err(), Some(EphemerisError::CorruptSplineData));
    let shifted = SplineSet { evenness: Evenness::Uneven { indexes: vec![1, 5] }, segments: vec![1u32] };
    assert_eq!(Ephemeris::new(at(0), kind, false, shifted).err(), Some(EphemerisError::CorruptSplineData));
    let flat = SplineSet { evenness: Evenness::Uneven { indexes: vec![0, 5, 5] }, segments: vec![1u32, 2] };
    assert_eq!(Ephemeris::new(at(0), kind, false, flat).err(), Some(EphemerisError::CorruptSplineData));
    let late = SplineSet { evenness: Evenness::Even { duration_ns: 10 }, segments: vec![1u32] };
    assert_eq!(Ephemeris::new(at(i128::MAX - 9), kind, false, late).err(), Some(EphemerisError::CorruptSplineData));
    let fits = SplineSet { evenness: Evenness::Even { duration_ns: 10 }, segments: vec![1u32] };
    assert!(Ephemeris::new(at(i128::MAX - 10), kind, false, fits).is_ok());
}

#[test]
fn aberration_has_one_variant() {
    assert_eq!(Aberration::Uncorrected, Aberration::Uncorrected);
}

//! The path of a slider: a curve type and its control points.

use crate::error::{failure, miscount, plain, viewed, DecodeError, ErrorKind, Failure};
use crate::text::{
    cut,
    cut_at,
    decode_int,
    lemma_split_nonempty,
    spec_int,
    split,
    split_fields,
    views,
    COLON,
    PIPE,
};
use vstd::prelude::*;

verus! {

/// How the control points of a curve are joined.
#[derive(Debug, Copy, Clone, PartialEq, Eq, Structural)]
pub enum CurveType {
    Bezier,
    Centripetal,
    Linear,
    Perfect,
}

/// A control point, in map pixels.
#[derive(Debug, Copy, Clone, PartialEq, Eq, Structural)]
pub struct Point {
    pub x: i64,
    pub y: i64,
}

/// A curve type with its control points, in the order written.
#[derive(Debug, Clone, PartialEq, Eq)]
pub struct Curve {
    pub curve_type: CurveType,
    pub points: Vec<Point>,
}

/// The mathematical content of a [`Curve`].
pub struct CurveView {
    pub curve_type: CurveType,
    pub points: Seq<Point>,
}

impl View for Curve {
    type V = CurveView;

    open spec fn view(&self) -> CurveView {
        CurveView { curve_type: self.curve_type, points: self.points@ }
    }
}

impl CurveView {
    /// A perfect curve has at most two control points.
    pub open spec fn wf(&self) -> bool {
        self.curve_type == CurveType::Perfect ==> self.points.len() <= 2
    }
}

/// The curve type that the field `s` writes: one of the four letters `B`,
/// `C`, `L` and `P`.
pub open spec fn spec_curve_type(s: Seq<u8>) -> Result<CurveType, Failure> {
    if s == seq![66u8] {
        Ok(CurveType::Bezier)
    } else if s == seq![67u8] {
        Ok(CurveType::Centripetal)
    } else if s == seq![76u8] {
        Ok(CurveType::Linear)
    } else if s == seq![80u8] {
        Ok(CurveType::Perfect)
    } else {
        Err(failure(ErrorKind::EnumDecodeError, s))
    }
}

/// The control point that `s` writes: two integers with the first colon of
/// `s` between them.
pub open spec fn spec_point(s: Seq<u8>) -> Result<Point, Failure> {
    match cut(s, COLON) {
        None => Err(miscount(1, s)),
        Some((first, second)) => match spec_int(first) {
            Err(f) => Err(f),
            Ok(x) => match spec_int(second) {
                Err(f) => Err(f),
                Ok(y) => Ok(Point { x, y }),
            },
        },
    }
}

/// The control points that `tokens` write for a curve of the given type
/// whose whole text is `whole`. The first token that fails decides the
/// failure; a third point of a perfect curve fails before it is read.
pub open spec fn spec_points(tokens: Seq<Seq<u8>>, curve_type: CurveType, whole: Seq<u8>) -> Result<
    Seq<Point>,
    Failure,
>
    decreases tokens.len(),
{
    if tokens.len() == 0 {
        Ok(Seq::<Point>::empty())
    } else {
        match spec_points(tokens.drop_last(), curve_type, whole) {
            Err(f) => Err(f),
            Ok(before) => if curve_type == CurveType::Perfect && before.len() == 2 {
                Err(failure(ErrorKind::CurveShapeError, whole))
            } else {
                match spec_point(tokens.last()) {
                    Err(f) => Err(f),
                    Ok(p) => Ok(before.push(p)),
                }
            },
        }
    }
}

/// The curve that `s` writes: a curve type, then one control point after
/// each pipe.
pub open spec fn spec_curve(s: Seq<u8>) -> Result<CurveView, Failure> {
    let tokens = split(s, PIPE);
    match spec_curve_type(tokens[0]) {
        Err(f) => Err(f),
        Ok(curve_type) => match spec_points(tokens.drop_first(), curve_type, s) {
            Err(f) => Err(f),
            Ok(points) => Ok(CurveView { curve_type, points }),
        },
    }
}

/// The points of a decoded curve number as many as the tokens, and a
/// perfect curve has at most two.
pub proof fn lemma_points_shape(tokens: Seq<Seq<u8>>, curve_type: CurveType, whole: Seq<u8>)
    requires
        spec_points(tokens, curve_type, whole) is Ok,
    ensures
        spec_points(tokens, curve_type, whole)->Ok_0.len() == tokens.len(),
        curve_type == CurveType::Perfect ==> tokens.len() <= 2,
    decreases tokens.len(),
{
    if tokens.len() > 0 {
        lemma_points_shape(tokens.drop_last(), curve_type, whole);
    }
}

impl CurveType {
    /// Reads a curve-type field.
    pub fn decode(s: &[u8]) -> (r: Result<CurveType, DecodeError>)
        ensures
            plain(r) == spec_curve_type(s@),
    {
        if s.len() == 1 {
            let b = s[0];
            assert(s@ =~= seq![b]);
            if b == 66 {
                return Ok(CurveType::Bezier);
            } else if b == 67 {
                return Ok(CurveType::Centripetal);
            } else if b == 76 {
                return Ok(CurveType::Linear);
            } else if b == 80 {
                return Ok(CurveType::Perfect);
            }
            assert(seq![66u8][0] == 66 && seq![67u8][0] == 67 && seq![76u8][0] == 76 && seq![
                80u8,
            ][0] == 80);
        } else {
            assert(seq![66u8].len() == 1 && seq![67u8].len() == 1 && seq![76u8].len() == 1
                && seq![80u8].len() == 1);
        }
        Err(DecodeError::new(ErrorKind::EnumDecodeError, s))
    }
}

impl Point {
    /// Reads a control point.
    pub fn decode(s: &[u8]) -> (r: Result<Point, DecodeError>)
        ensures
            plain(r) == spec_point(s@),
    {
        let (first, second) = match cut_at(s, COLON) {
            None => {
                return Err(DecodeError::miscount(1, s));
            },
            Some(pair) => pair,
        };
        let x = match decode_int(first) {
            Err(e) => {
                return Err(e);
            },
            Ok(v) => v,
        };
        let y = match decode_int(second) {
            Err(e) => {
                return Err(e);
            },
            Ok(v) => v,
        };
        Ok(Point { x, y })
    }
}

impl Curve {
    /// Reads a curve.
    pub fn decode(s: &[u8]) -> (r: Result<Curve, DecodeError>)
        ensures
            viewed(r) == spec_curve(s@),
            r is Ok ==> r->Ok_0@.wf(),
    {
        let tokens = split_fields(s, PIPE);
        proof {
            lemma_split_nonempty(s@, PIPE);
        }
        assert(views(tokens@).len() == tokens@.len());
        assert(views(tokens@)[0] == tokens@[0]@);
        let curve_type = match CurveType::decode(tokens[0]) {
            Err(e) => {
                return Err(e);
            },
            Ok(v) => v,
        };
        let ghost rest = views(tokens@).drop_first();
        let mut points: Vec<Point> = Vec::new();
        let mut i: usize = 1;
        assert(rest.take(0) =~= Seq::<Seq<u8>>::empty());
        while i < tokens.len()
            invariant
                1 <= i <= tokens.len(),
                views(tokens@) == split(s@, PIPE),
                spec_curve_type(split(s@, PIPE)[0]) == Ok::<CurveType, Failure>(curve_type),
                rest == views(tokens@).drop_first(),
                spec_points(rest.take(i - 1), curve_type, s@) == Ok::<Seq<Point>, Failure>(points@),
                points@.len() == i - 1,
                curve_type == CurveType::Perfect ==> points@.len() <= 2,
            decreases tokens.len() - i,
        {
            let ghost next = rest.take(i as int);
            proof {
                assert(next.drop_last() =~= rest.take(i - 1));
                assert(next.last() == tokens@[i as int]@);
            }
            if matches!(curve_type, CurveType::Perfect) && points.len() == 2 {
                proof {
                    lemma_spec_points_prefix(rest, curve_type, s@, i as int);
                }
                return Err(DecodeError::new(ErrorKind::CurveShapeError, s));
            }
            let p = match Point::decode(tokens[i]) {
                Err(e) => {
                    proof {
                        lemma_spec_points_prefix(rest, curve_type, s@, i as int);
                    }
                    return Err(e);
                },
                Ok(v) => v,
            };
            points.push(p);
            i = i + 1;
        }
        assert(rest.take(tokens.len() - 1) =~= rest);
        Ok(Curve { curve_type, points })
    }
}

/// Once a prefix of the tokens has failed, the whole list fails in the same
/// way.
pub proof fn lemma_spec_points_prefix(
    tokens: Seq<Seq<u8>>,
    curve_type: CurveType,
    whole: Seq<u8>,
    k: int,
)
    requires
        0 <= k <= tokens.len(),
        spec_points(tokens.take(k), curve_type, whole) is Err,
    ensures
        spec_points(tokens, curve_type, whole) == spec_points(tokens.take(k), curve_type, whole),
    decreases tokens.len(),
{
    if k == tokens.len() {
        assert(tokens.take(k) =~= tokens);
    } else {
        assert(tokens.drop_last().take(k) =~= tokens.take(k));
        lemma_spec_points_prefix(tokens.drop_last(), curve_type, whole, k);
    }
}

} // verus!

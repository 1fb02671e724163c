//! The shape variants and their metrics.
//!
//! Each variant computes its own area and perimeter over milli-unit
//! dimensions. Perimeters come out in micro-units (milli-units times a
//! thousand) and areas in nano-square-units, the finest scales on which
//! every product here is an exact integer.

use core::cmp::Ordering;
use vstd::prelude::*;

use crate::fixed::{in_dim, is_sqrt_floor, isqrt, parse_number, ParseError};
use crate::record::{field_num, field_seq, split_fields, views_of};

verus! {

/// The ordering of two metric values, always defined: fixed-point
/// metrics are real numbers, so no comparison is left undecided.
pub open spec fn order_of(a: int, b: int) -> Option<Ordering> {
    if a < b {
        Some(Ordering::Less)
    } else if a == b {
        Some(Ordering::Equal)
    } else {
        Some(Ordering::Greater)
    }
}

/// A rectangle. Dimensions are in milli-units; the name is a display
/// label that plays no part in comparisons.
pub struct Rectangle {
    pub length: i64,
    pub width: i64,
    pub name: String,
}

impl Rectangle {
    /// Both dimensions are within the accepted range.
    pub open spec fn wf(&self) -> bool {
        in_dim(self.length) && in_dim(self.width)
    }

    /// Area in nano-square-units: length times width, both in
    /// milli-units, times a thousand.
    pub open spec fn area_val(&self) -> int {
        self.length * self.width * 1000
    }

    /// Perimeter in micro-units.
    pub open spec fn perimeter_val(&self) -> int {
        2 * (self.length + self.width) * 1000
    }

    pub fn new(length: i64, width: i64, name: String) -> (r: Rectangle)
        requires
            in_dim(length),
            in_dim(width),
        ensures
            r == (Rectangle { length, width, name }),
    {
        Rectangle { length, width, name }
    }

    /// Area in nano-square-units.
    pub fn area(&self) -> (r: i64)
        requires
            self.wf(),
        ensures
            r == self.area_val(),
    {
        proof {
            assert(-100_000_000_000_000i128 <= (self.length as i128) * (self.width as i128)
                <= 100_000_000_000_000i128) by (nonlinear_arith)
                requires
                    -10_000_000 <= self.length <= 10_000_000,
                    -10_000_000 <= self.width <= 10_000_000,
            ;
        }
        let wide: i128 = (self.length as i128) * (self.width as i128) * 1000;
        wide as i64
    }

    /// Perimeter in micro-units.
    pub fn perimeter(&self) -> (r: i64)
        requires
            self.wf(),
        ensures
            r == self.perimeter_val(),
    {
        2 * (self.length + self.width) * 1000
    }

    pub fn get_length(&self) -> (r: i64)
        ensures
            r == self.length,
    {
        self.length
    }

    pub fn set_length(&mut self, length: i64)
        requires
            in_dim(length),
        ensures
            *final(self) == (Rectangle { length, ..*old(self) }),
    {
        self.length = length;
    }

    pub fn get_width(&self) -> (r: i64)
        ensures
            r == self.width,
    {
        self.width
    }

    pub fn set_width(&mut self, width: i64)
        requires
            in_dim(width),
        ensures
            *final(self) == (Rectangle { width, ..*old(self) }),
    {
        self.width = width;
    }

    pub fn get_name(&self) -> (r: &str)
        ensures
            r@ == self.name@,
    {
        self.name.as_str()
    }

    pub fn set_name(&mut self, name: String)
        ensures
            *final(self) == (Rectangle { name, ..*old(self) }),
    {
        self.name = name;
    }

    /// Read a rectangle from a record `length,width,name`. Fields that
    /// are not there default to zero and the empty name; a numeric
    /// field that is there but wrong is refused, the leftmost first.
    pub fn from_record(s: &str) -> (r: Result<Rectangle, ParseError>)
        ensures
            ({
                let fs = field_seq(s@);
                match (field_num(fs, 0), field_num(fs, 1)) {
                    (Err(e), _) => r == Err::<Rectangle, ParseError>(e),
                    (Ok(_), Err(e)) => r == Err::<Rectangle, ParseError>(e),
                    (Ok(l), Ok(w)) => {
                        &&& r is Ok
                        &&& r->Ok_0.length == l
                        &&& r->Ok_0.width == w
                        &&& r->Ok_0.name@ == (if fs.len() >= 3 {
                            fs[2]
                        } else {
                            Seq::<char>::empty()
                        })
                        &&& r->Ok_0.wf()
                    },
                }
            }),
    {
        let fields = split_fields(s);
        proof {
            assert(views_of(fields@)[0] == fields@[0]@);
        }
        let length = match parse_number(fields[0]) {
            Ok(v) => v,
            Err(e) => { return Err(e) },
        };
        let width = if fields.len() >= 2 {
            proof {
                assert(views_of(fields@)[1] == fields@[1]@);
            }
            match parse_number(fields[1]) {
                Ok(v) => v,
                Err(e) => { return Err(e) },
            }
        } else {
            0
        };
        let name = if fields.len() >= 3 {
            proof {
                assert(views_of(fields@)[2] == fields@[2]@);
            }
            fields[2].to_owned()
        } else {
            String::new()
        };
        proof {
            assert(name@ =~= (if field_seq(s@).len() >= 3 {
                field_seq(s@)[2]
            } else {
                Seq::<char>::empty()
            }));
        }
        Ok(Rectangle { length, width, name })
    }
}

impl Default for Rectangle {
    /// A one-by-one rectangle with a placeholder name.
    fn default() -> (r: Rectangle)
        ensures
            r.length == 1000,
            r.width == 1000,
            r.name@ == "default_name"@,
    {
        Rectangle { length: 1000, width: 1000, name: String::from_str("default_name") }
    }
}

/// Rectangles are equal when their areas are: the name and the exact
/// side lengths play no part.
impl PartialEq for Rectangle {
    fn eq(&self, other: &Self) -> (r: bool) {
        rect_raw_area(self) == rect_raw_area(other)
    }
}

impl vstd::std_specs::cmp::PartialEqSpecImpl for Rectangle {
    open spec fn obeys_eq_spec() -> bool {
        true
    }

    open spec fn eq_spec(&self, other: &Rectangle) -> bool {
        self.area_val() == other.area_val()
    }
}

/// Rectangles are ordered by area; the ordering is always defined.
impl PartialOrd for Rectangle {
    fn partial_cmp(&self, other: &Self) -> (r: Option<Ordering>) {
        let a = rect_raw_area(self);
        let b = rect_raw_area(other);
        if a < b {
            Some(Ordering::Less)
        } else if a == b {
            Some(Ordering::Equal)
        } else {
            Some(Ordering::Greater)
        }
    }
}

impl vstd::std_specs::cmp::PartialOrdSpecImpl for Rectangle {
    open spec fn obeys_partial_cmp_spec() -> bool {
        true
    }

    open spec fn partial_cmp_spec(&self, other: &Rectangle) -> Option<Ordering> {
        order_of(self.area_val(), other.area_val())
    }
}

/// The product of the sides in milli-units squared: the rectangle's
/// area up to the fixed positive scale factor, defined for every value
/// of the fields so that comparisons need no bound on them.
fn rect_raw_area(rect: &Rectangle) -> (r: i128)
    ensures
        r == rect.length * rect.width,
{
    proof {
        assert((rect.length as i128) * (rect.width as i128)
            <= 85070591730234615865843651857942052864i128 && (rect.length as i128) * (
        rect.width as i128) >= -85070591730234615865843651857942052864i128) by (nonlinear_arith)
            requires
                -9223372036854775808i128 <= rect.length <= 9223372036854775807i128,
                -9223372036854775808i128 <= rect.width <= 9223372036854775807i128,
        ;
    }
    (rect.length as i128) * (rect.width as i128)
}

/// A circle, with its radius in milli-units.
pub struct Circle {
    pub radius: i64,
}

impl Circle {
    /// The radius is within the accepted range.
    pub open spec fn wf(&self) -> bool {
        in_dim(self.radius)
    }

    /// Area in nano-square-units: 3.142 times the radius squared.
    pub open spec fn area_val(&self) -> int {
        3142 * (self.radius * self.radius)
    }

    /// Perimeter in micro-units: 2 times 3.142 times the radius.
    pub open spec fn perimeter_val(&self) -> int {
        6284 * self.radius
    }

    pub fn new(radius: i64) -> (r: Circle)
        requires
            in_dim(radius),
        ensures
            r == (Circle { radius }),
    {
        Circle { radius }
    }

    /// Area in nano-square-units.
    pub fn area(&self) -> (r: i64)
        requires
            self.wf(),
        ensures
            r == self.area_val(),
    {
        proof {
            assert(0 <= (self.radius as i128) * (self.radius as i128) <= 100_000_000_000_000i128)
                by (nonlinear_arith)
                requires
                    -10_000_000 <= self.radius <= 10_000_000,
            ;
        }
        let sq: i128 = (self.radius as i128) * (self.radius as i128);
        (3142 * sq) as i64
    }

    /// Perimeter in micro-units.
    pub fn perimeter(&self) -> (r: i64)
        requires
            self.wf(),
        ensures
            r == self.perimeter_val(),
    {
        6284 * self.radius
    }

    /// Read a circle from a record `radius`. A missing field defaults
    /// to zero; any further fields are ignored.
    pub fn from_record(s: &str) -> (r: Result<Circle, ParseError>)
        ensures
            ({
                let fs = field_seq(s@);
                match field_num(fs, 0) {
                    Err(e) => r == Err::<Circle, ParseError>(e),
                    Ok(v) => r == Ok::<Circle, ParseError>(Circle { radius: v }),
                }
            }),
            r is Ok ==> r->Ok_0.wf(),
    {
        let fields = split_fields(s);
        proof {
            assert(views_of(fields@)[0] == fields@[0]@);
        }
        let radius = match parse_number(fields[0]) {
            Ok(v) => v,
            Err(e) => { return Err(e) },
        };
        Ok(Circle { radius })
    }
}

/// Circles are equal when their perimeters are, which for a fixed
/// positive constant of proportionality is when their radii are.
impl PartialEq for Circle {
    fn eq(&self, other: &Self) -> (r: bool) {
        self.radius == other.radius
    }
}

impl vstd::std_specs::cmp::PartialEqSpecImpl for Circle {
    open spec fn obeys_eq_spec() -> bool {
        true
    }

    open spec fn eq_spec(&self, other: &Circle) -> bool {
        self.perimeter_val() == other.perimeter_val()
    }
}

/// Circles are ordered by perimeter; the ordering is always defined.
impl PartialOrd for Circle {
    fn partial_cmp(&self, other: &Self) -> (r: Option<Ordering>) {
        if self.radius < other.radius {
            Some(Ordering::Less)
        } else if self.radius == other.radius {
            Some(Ordering::Equal)
        } else {
            Some(Ordering::Greater)
        }
    }
}

impl vstd::std_specs::cmp::PartialOrdSpecImpl for Circle {
    open spec fn obeys_partial_cmp_spec() -> bool {
        true
    }

    open spec fn partial_cmp_spec(&self, other: &Circle) -> Option<Ordering> {
        order_of(self.perimeter_val(), other.perimeter_val())
    }
}

/// A triangle, with its three side lengths in milli-units.
pub struct Triangle {
    pub side_a: i64,
    pub side_b: i64,
    pub side_c: i64,
}

impl Triangle {
    /// All three sides are within the accepted range.
    pub open spec fn wf(&self) -> bool {
        in_dim(self.side_a) && in_dim(self.side_b) && in_dim(self.side_c)
    }

    /// Perimeter in micro-units.
    pub open spec fn perimeter_val(&self) -> int {
        (self.side_a + self.side_b + self.side_c) * 1000
    }

    pub fn new(side_a: i64, side_b: i64, side_c: i64) -> (r: Triangle)
        requires
            in_dim(side_a),
            in_dim(side_b),
            in_dim(side_c),
        ensures
            r == (Triangle { side_a, side_b, side_c }),
    {
        Triangle { side_a, side_b, side_c }
    }

    /// Perimeter in micro-units.
    pub fn perimeter(&self) -> (r: i64)
        requires
            self.wf(),
        ensures
            r == self.perimeter_val(),
    {
        (self.side_a + self.side_b + self.side_c) * 1000
    }

    /// Sixteen times the squared area in milli-units to the fourth
    /// power: Heron's radicand with the semi-perimeter cleared of
    /// halves. Negative exactly when the area is not a real number.
    pub open spec fn heron_radicand(&self) -> int {
        let p = self.side_a + self.side_b + self.side_c;
        p * (p - 2 * self.side_a) * (p - 2 * self.side_b) * (p - 2 * self.side_c)
    }

    /// The area is a real number: the sides can close into a triangle.
    pub open spec fn area_defined(&self) -> bool {
        self.heron_radicand() >= 0
    }

    /// Area in nano-square-units, by Heron's formula: the square root,
    /// rounded down to the grid, of the exact squared area. `None` when
    /// the sides admit no real area (the fixed-point stand-in for a
    /// non-real result).
    pub fn area(&self) -> (r: Option<i64>)
        requires
            self.wf(),
        ensures
            r is Some <==> self.area_defined(),
            r is Some ==> is_sqrt_floor(self.heron_radicand() * 62500, r->0 as int),
    {
        let p: i64 = self.side_a + self.side_b + self.side_c;
        let fa: i64 = p - 2 * self.side_a;
        let fb: i64 = p - 2 * self.side_b;
        let fc: i64 = p - 2 * self.side_c;
        proof {
            assert(-2_500_000_000_000_000i128 <= (p as i128) * (fa as i128)
                <= 2_500_000_000_000_000i128) by (nonlinear_arith)
                requires
                    -50_000_000 <= p <= 50_000_000,
                    -50_000_000 <= fa <= 50_000_000,
            ;
            assert(-125_000_000_000_000_000_000_000i128 <= ((p as i128) * (fa as i128)) * (
            fb as i128) <= 125_000_000_000_000_000_000_000i128) by (nonlinear_arith)
                requires
                    -2_500_000_000_000_000i128 <= (p as i128) * (fa as i128)
                        <= 2_500_000_000_000_000i128,
                    -50_000_000 <= fb <= 50_000_000,
            ;
            assert(-6_250_000_000_000_000_000_000_000_000_000i128 <= ((p as i128) * (fa as i128)
                * (fb as i128)) * (fc as i128) <= 6_250_000_000_000_000_000_000_000_000_000i128)
                by (nonlinear_arith)
                requires
                    -125_000_000_000_000_000_000_000i128 <= (p as i128) * (fa as i128) * (
                    fb as i128) <= 125_000_000_000_000_000_000_000i128,
                    -50_000_000 <= fc <= 50_000_000,
            ;
        }
        let rad: i128 = (p as i128) * (fa as i128) * (fb as i128) * (fc as i128);
        if rad < 0 {
            None
        } else {
            let root: u128 = isqrt((rad as u128) * 62500);
            proof {
                assert(root <= 3_000_000_000_000_000_000u128) by (nonlinear_arith)
                    requires
                        root * root <= (rad as u128) * 62500,
                        0 <= rad <= 6_250_000_000_000_000_000_000_000_000_000i128,
                ;
            }
            Some(root as i64)
        }
    }

    /// Read a triangle from a record `side_a,side_b,side_c`. Fields
    /// that are not there default to zero, silently making the
    /// triangle degenerate; a numeric field that is there but wrong is
    /// refused, the leftmost first.
    pub fn from_record(s: &str) -> (r: Result<Triangle, ParseError>)
        ensures
            ({
                let fs = field_seq(s@);
                match (field_num(fs, 0), field_num(fs, 1), field_num(fs, 2)) {
                    (Err(e), _, _) => r == Err::<Triangle, ParseError>(e),
                    (Ok(_), Err(e), _) => r == Err::<Triangle, ParseError>(e),
                    (Ok(_), Ok(_), Err(e)) => r == Err::<Triangle, ParseError>(e),
                    (Ok(a), Ok(b), Ok(c)) => r == Ok::<Triangle, ParseError>(
                        Triangle { side_a: a, side_b: b, side_c: c },
                    ),
                }
            }),
            r is Ok ==> r->Ok_0.wf(),
    {
        let fields = split_fields(s);
        proof {
            assert(views_of(fields@)[0] == fields@[0]@);
        }
        let side_a = match parse_number(fields[0]) {
            Ok(v) => v,
            Err(e) => { return Err(e) },
        };
        let side_b = if fields.len() >= 2 {
            proof {
                assert(views_of(fields@)[1] == fields@[1]@);
            }
            match parse_number(fields[1]) {
                Ok(v) => v,
                Err(e) => { return Err(e) },
            }
        } else {
            0
        };
        let side_c = if fields.len() >= 3 {
            proof {
                assert(views_of(fields@)[2] == fields@[2]@);
            }
            match parse_number(fields[2]) {
                Ok(v) => v,
                Err(e) => { return Err(e) },
            }
        } else {
            0
        };
        Ok(Triangle { side_a, side_b, side_c })
    }
}

/// Triangles are equal when their perimeters are, which for the fixed
/// scale is when the sums of their sides are.
impl PartialEq for Triangle {
    fn eq(&self, other: &Self) -> (r: bool) {
        triangle_raw_perimeter(self) == triangle_raw_perimeter(other)
    }
}

impl vstd::std_specs::cmp::PartialEqSpecImpl for Triangle {
    open spec fn obeys_eq_spec() -> bool {
        true
    }

    open spec fn eq_spec(&self, other: &Triangle) -> bool {
        self.perimeter_val() == other.perimeter_val()
    }
}

/// Triangles are ordered by perimeter; the ordering is always defined.
impl PartialOrd for Triangle {
    fn partial_cmp(&self, other: &Self) -> (r: Option<Ordering>) {
        let a = triangle_raw_perimeter(self);
        let b = triangle_raw_perimeter(other);
        if a < b {
            Some(Ordering::Less)
        } else if a == b {
            Some(Ordering::Equal)
        } else {
            Some(Ordering::Greater)
        }
    }
}

impl vstd::std_specs::cmp::PartialOrdSpecImpl for Triangle {
    open spec fn obeys_partial_cmp_spec() -> bool {
        true
    }

    open spec fn partial_cmp_spec(&self, other: &Triangle) -> Option<Ordering> {
        order_of(self.perimeter_val(), other.perimeter_val())
    }
}

/// An ordering by metric is never left undecided here: fixed-point
/// metrics are always real numbers, so comparing two shapes of one
/// variant cannot come out undefined.
pub proof fn lemma_order_always_defined(a: int, b: int)
    ensures
        order_of(a, b) is Some,
{
}

/// Two shapes of one variant compare as `Equal` exactly when they are
/// equal, both being settled by the same metric.
pub proof fn lemma_order_equal_iff(a: int, b: int)
    ensures
        (order_of(a, b) == Some(Ordering::Equal)) <==> a == b,
{
}

/// For sides above zero, the area is a real number exactly when the
/// sides obey the triangle inequality; outside it the radicand turns
/// negative and the area is refused rather than invented.
pub proof fn lemma_area_defined_iff_triangle_inequality(t: Triangle)
    requires
        t.side_a > 0,
        t.side_b > 0,
        t.side_c > 0,
    ensures
        t.area_defined() <==> {
            &&& t.side_a + t.side_b >= t.side_c
            &&& t.side_b + t.side_c >= t.side_a
            &&& t.side_a + t.side_c >= t.side_b
        },
{
    let p: int = t.side_a + t.side_b + t.side_c;
    let x = p - 2 * t.side_a;
    let y = p - 2 * t.side_b;
    let z = p - 2 * t.side_c;
    assert(x + y == 2 * t.side_c && y + z == 2 * t.side_a && x + z == 2 * t.side_b);
    if x >= 0 && y >= 0 && z >= 0 {
        assert(p * x * y * z >= 0) by (nonlinear_arith)
            requires
                p > 0,
                x >= 0,
                y >= 0,
                z >= 0,
        ;
    } else if x < 0 {
        assert(p * x * y * z < 0) by (nonlinear_arith)
            requires
                p > 0,
                x < 0,
                y > 0,
                z > 0,
        ;
    } else if y < 0 {
        assert(p * x * y * z < 0) by (nonlinear_arith)
            requires
                p > 0,
                x > 0,
                y < 0,
                z > 0,
        ;
    } else {
        assert(p * x * y * z < 0) by (nonlinear_arith)
            requires
                p > 0,
                x > 0,
                y > 0,
                z < 0,
        ;
    }
}

/// The sum of the sides in milli-units: the triangle's perimeter up to
/// the fixed positive scale factor, defined for every value of the
/// fields so that comparisons need no bound on them.
fn triangle_raw_perimeter(t: &Triangle) -> (r: i128)
    ensures
        r == t.side_a + t.side_b + t.side_c,
{
    (t.side_a as i128) + (t.side_b as i128) + (t.side_c as i128)
}

} // verus!

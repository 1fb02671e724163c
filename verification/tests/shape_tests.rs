use core::cmp::Ordering;

use shapes::shapes::{Circle, Rectangle, Triangle};

#[test]
fn rectangle_area_and_perimeter() {
    // 2 by 3 units: area 6 square units, perimeter 10 units.
    let r = Rectangle::new(2000, 3000, String::from("A"));
    assert_eq!(r.area(), 6_000_000_000);
    assert_eq!(r.perimeter(), 10_000_000);
}

#[test]
fn rectangle_negative_dimensions_accepted() {
    let r = Rectangle::new(-2000, 3000, String::from("neg"));
    assert_eq!(r.area(), -6_000_000_000);
    assert_eq!(r.perimeter(), 2_000_000);
}

#[test]
fn rectangle_default_values() {
    let r = Rectangle::default();
    assert_eq!(r.get_length(), 1000);
    assert_eq!(r.get_width(), 1000);
    assert_eq!(r.get_name(), "default_name");
}

#[test]
fn rectangle_getters_and_setters() {
    let mut r = Rectangle::new(1000, 2000, String::from("box"));
    assert_eq!(r.get_length(), 1000);
    assert_eq!(r.get_width(), 2000);
    assert_eq!(r.get_name(), "box");
    r.set_length(4000);
    r.set_width(5000);
    r.set_name(String::from("bigger box"));
    assert_eq!(r.get_length(), 4000);
    assert_eq!(r.get_width(), 5000);
    assert_eq!(r.get_name(), "bigger box");
    assert_eq!(r.area(), 20_000_000_000);
}

#[test]
fn rectangle_equality_is_by_area_not_structure() {
    // 2 by 3 and 1 by 6 have the same area though no field agrees.
    let a = Rectangle::new(2000, 3000, String::from("A"));
    let b = Rectangle::new(1000, 6000, String::from("B"));
    assert!(a == b);
    // Same length and name, different area: not equal.
    let c = Rectangle::new(2000, 4000, String::from("A"));
    assert!(a != c);
}

#[test]
fn rectangle_ordering_is_by_area() {
    let small = Rectangle::new(1000, 1000, String::from("s"));
    let large = Rectangle::new(1000, 3000, String::from("l"));
    assert_eq!(small.partial_cmp(&large), Some(Ordering::Less));
    assert_eq!(large.partial_cmp(&small), Some(Ordering::Greater));
    assert!(small < large);
    assert!(small <= large);
    let same = Rectangle::new(3000, 1000, String::from("x"));
    assert_eq!(large.partial_cmp(&same), Some(Ordering::Equal));
}

#[test]
fn circle_area_and_perimeter() {
    // Radius 5 units, with the constant 3.142: perimeter 31.42,
    // area 78.55 square units.
    let c = Circle::new(5000);
    assert_eq!(c.perimeter(), 31_420_000);
    assert_eq!(c.area(), 78_550_000_000);
}

#[test]
fn circle_equality_and_ordering_are_by_perimeter() {
    let c1 = Circle::new(7000);
    let c2 = Circle::new(7000);
    let c3 = Circle::new(5000);
    assert!(c1 == c2);
    assert!(c1 != c3);
    assert_eq!(c1.partial_cmp(&c2), Some(Ordering::Equal));
    assert_eq!(c3.partial_cmp(&c1), Some(Ordering::Less));
    assert!(c3 < c1);
}

#[test]
fn triangle_right_triangle_exact() {
    // Sides 3, 4, 5: perimeter 12 and area exactly 6.
    let t = Triangle::new(3000, 4000, 5000);
    assert_eq!(t.perimeter(), 12_000_000);
    assert_eq!(t.area(), Some(6_000_000_000));
}

#[test]
fn triangle_equilateral_area_rounded_down() {
    // Unit equilateral triangle: area sqrt(3)/4, cut to the grid.
    let t = Triangle::new(1000, 1000, 1000);
    assert_eq!(t.area(), Some(433_012_701));
}

#[test]
fn triangle_invalid_sides_have_no_area() {
    // 1, 1, 10 cannot close into a triangle: no real area.
    let t = Triangle::new(1000, 1000, 10000);
    assert_eq!(t.area(), None);
}

#[test]
fn triangle_ordering_is_by_perimeter_even_without_area() {
    // The ordering metric is the perimeter, which is always a real
    // number here, so even a side set without an area is ordered.
    let bad = Triangle::new(1000, 1000, 10000);
    let right = Triangle::new(3000, 4000, 5000);
    assert_eq!(bad.partial_cmp(&right), Some(Ordering::Equal));
    let larger = Triangle::new(5000, 12000, 13000);
    assert_eq!(right.partial_cmp(&larger), Some(Ordering::Less));
    assert!(right == bad);
    assert!(right < larger);
    assert_eq!(larger.area(), Some(30_000_000_000));
}

#[test]
fn triangle_equality_is_by_perimeter() {
    let a = Triangle::new(3000, 4000, 5000);
    let b = Triangle::new(4000, 4000, 4000);
    assert!(a == b);
    let c = Triangle::new(4000, 4000, 5000);
    assert!(a != c);
}

use std::ops::{Add, Div, Mul, Sub};

use statekit::graphics::{Component, Sqrt, Vec3};

#[derive(Debug, Clone, Copy, Default, PartialEq)]
struct Whole(i64);

impl Add for Whole {
    type Output = Whole;

    fn add(self, other: Whole) -> Whole {
        Whole(self.0 + other.0)
    }
}

impl Sub for Whole {
    type Output = Whole;

    fn sub(self, other: Whole) -> Whole {
        Whole(self.0 - other.0)
    }
}

impl Mul for Whole {
    type Output = Whole;

    fn mul(self, other: Whole) -> Whole {
        Whole(self.0 * other.0)
    }
}

impl Div for Whole {
    type Output = Whole;

    fn div(self, other: Whole) -> Whole {
        Whole(self.0 / other.0)
    }
}

impl Sqrt for Whole {
    fn sqrt(&self) -> Whole {
        let mut root = 0;
        while (root + 1) * (root + 1) <= self.0 {
            root += 1;
        }
        Whole(root)
    }
}

impl Component for Whole {}

#[derive(Debug, Clone, Copy, Default, PartialEq)]
struct Wide(i128);

impl Add for Wide {
    type Output = Wide;

    fn add(self, other: Wide) -> Wide {
        Wide(self.0 + other.0)
    }
}

impl Sub for Wide {
    type Output = Wide;

    fn sub(self, other: Wide) -> Wide {
        Wide(self.0 - other.0)
    }
}

impl Mul for Wide {
    type Output = Wide;

    fn mul(self, other: Wide) -> Wide {
        Wide(self.0 * other.0)
    }
}

impl Div for Wide {
    type Output = Wide;

    fn div(self, other: Wide) -> Wide {
        Wide(self.0 / other.0)
    }
}

impl Sqrt for Wide {
    fn sqrt(&self) -> Wide {
        *self
    }
}

impl Component for Wide {}

impl From<Whole> for Wide {
    fn from(value: Whole) -> Wide {
        Wide(value.0 as i128 + 1)
    }
}

#[test]
fn vec3_new_keeps_the_components_in_order() {
    let v = Vec3::new(Whole(1), Whole(2), Whole(3));
    assert_eq!(format!("{:?}", v), "Vec3 { x: Whole(1), y: Whole(2), z: Whole(3) }");
}

#[test]
fn vec3_default_is_made_of_defaults() {
    let v: Vec3<Whole> = Vec3::default();
    assert_eq!(format!("{:?}", v), "Vec3 { x: Whole(0), y: Whole(0), z: Whole(0) }");
}

#[test]
fn vec3_copy_takes_the_components_of_the_other() {
    let mut v = Vec3::new(Whole(1), Whole(2), Whole(3));
    let other = Vec3::new(Whole(7), Whole(8), Whole(9));
    v.copy(&other);
    assert_eq!(format!("{:?}", v), format!("{:?}", other));
    assert_eq!(format!("{:?}", other), "Vec3 { x: Whole(7), y: Whole(8), z: Whole(9) }");
}

#[test]
fn vec3_into_converts_each_component() {
    let v = Vec3::new(Whole(1), Whole(2), Whole(3));
    let wide: Vec3<Wide> = v.into();
    assert_eq!(format!("{:?}", wide), "Vec3 { x: Wide(2), y: Wide(3), z: Wide(4) }");
}

#[test]
fn sqrt_is_what_the_component_says() {
    assert_eq!(Whole(17).sqrt(), Whole(4));
}

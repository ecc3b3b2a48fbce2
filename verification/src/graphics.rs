//! Vectors of three components.

use core::ops::{Add, Div, Mul, Sub};
use vstd::prelude::*;

verus! {

/// A vector of three components of one numeric type.
#[derive(Debug, Clone, Copy)]
pub struct Vec3<T> where T: Mul + Add + Sub + Div + Copy {
    x: T,
    y: T,
    z: T,
}

impl<T> View for Vec3<T> where T: Mul + Add + Sub + Div + Copy {
    type V = (T, T, T);

    /// The three components, in the order x, y, z.
    closed spec fn view(&self) -> (T, T, T) {
        (self.x, self.y, self.z)
    }
}

impl<T> Default for Vec3<T> where T: Mul + Add + Sub + Div + Default + Copy {
    /// Each component is a default of `T`.
    fn default() -> (vector: Self)
        ensures
            call_ensures(T::default, (), vector@.0),
            call_ensures(T::default, (), vector@.1),
            call_ensures(T::default, (), vector@.2),
    {
        Self { x: T::default(), y: T::default(), z: T::default() }
    }
}

/// A number that has a square root of its own type.
pub trait Sqrt: Sized {
    fn sqrt(&self) -> Self;
}

/// What the component of a vector can do.
pub trait Component: Mul + Add + Sub + Div + Default + Copy + Sqrt {

}

impl<T> Vec3<T> where T: Component, <T as Mul<T>>::Output: Add<Output = T> {
    /// The vector with the components `x`, `y` and `z`.
    pub fn new(x: T, y: T, z: T) -> (vector: Self)
        ensures
            vector@ == (x, y, z),
    {
        Self { x, y, z }
    }

    /// The vector whose components are those of `self`, each converted to
    /// `U`.
    pub fn into<U>(self) -> (vector: Vec3<U>) where
        U: From<T> + Component,
        <U as Mul<U>>::Output: Add<Output = U>,

        ensures
            call_ensures(U::from, (self@.0,), vector@.0),
            call_ensures(U::from, (self@.1,), vector@.1),
            call_ensures(U::from, (self@.2,), vector@.2),
    {
        Vec3::new(self.x.into(), self.y.into(), self.z.into())
    }

    /// Makes the components those of `other`.
    pub fn copy(&mut self, other: &Vec3<T>)
        ensures
            final(self)@ == other@,
    {
        self.x = other.x;
        self.y = other.y;
        self.z = other.z;
    }
}

} // verus!

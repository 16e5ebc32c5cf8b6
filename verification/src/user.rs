//! Per-user input state: the last mouse position in normalised device
//! coordinates, and where it lands in a GUI's own space.

use vstd::prelude::*;

use crate::fixed::FX_LIM;
use crate::math::{mat_bounded, transform_2d, transform_2d_spec, Fx2, FxMat4};

verus! {

/// A user's pointer state, in fixed-point normalised device coordinates.
#[derive(Clone, Copy, PartialEq, Eq, Structural, Debug)]
pub struct User {
    pub mouse_ndc: Fx2,
    pub left_button_down: bool,
}

impl Default for User {
    /// The state before any input: the pointer at the origin, the button
    /// up.
    fn default() -> (r: User)
        ensures
            r.mouse_ndc == (Fx2 { x: 0, y: 0 }),
            !r.left_button_down,
    {
        User { mouse_ndc: Fx2 { x: 0, y: 0 }, left_button_down: false }
    }
}

impl User {
    /// Record the pointer's position in normalised device coordinates.
    pub fn set_mouse_ndc(&mut self, mouse_ndc: &Fx2)
        ensures
            final(self).mouse_ndc == *mouse_ndc,
            final(self).left_button_down == old(self).left_button_down,
    {
        self.mouse_ndc = *mouse_ndc;
    }

    /// The pointer's position in a GUI's own space: the recorded position,
    /// taken through the given transform from normalised device
    /// coordinates.
    pub fn mouse(&self, ndc_to_your_gui: &FxMat4) -> (r: Fx2)
        requires
            -FX_LIM <= self.mouse_ndc.x <= FX_LIM,
            -FX_LIM <= self.mouse_ndc.y <= FX_LIM,
            mat_bounded(*ndc_to_your_gui),
        ensures
            r == transform_2d_spec(self.mouse_ndc, *ndc_to_your_gui),
    {
        transform_2d(self.mouse_ndc, ndc_to_your_gui)
    }
}

} // verus!

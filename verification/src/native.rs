//! The native video surface of the embedded player on platforms without
//! one (everything but macOS): there is no OpenGL view, so there is nothing
//! to make current and nothing to redraw.
use vstd::prelude::*;

verus! {

/// Makes the player's OpenGL context current; without a native view there
/// is no context, and the call does nothing.
pub fn make_gl_context_current() {
}

/// Asks the native view to draw the next frame; without a native view there
/// is nothing to draw, and the call does nothing.
pub fn request_render() {
}

} // verus!

//! An immediate-mode UI core for small displays: a CSS-like selector
//! language, a style cascade, layout containers and input routing.
use vstd::prelude::*;

pub mod geometry;
pub mod selector;
pub mod style;
pub mod cascade;
pub mod widgets;
pub mod layout;
pub mod dispatch;
pub mod text;
pub mod context;

verus! {

/// Relies on `alloc::string::String::push`: appends the given character
/// to the end of the string.
pub assume_specification[ String::push ](s: &mut String, c: char)
    ensures
        final(s)@ == old(s)@.push(c),
;

} // verus!

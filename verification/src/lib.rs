//! A verified shader-source pipeline: recursive directive expansion with a
//! line-accurate source map, uniform reflection into a typed, dirty-tracked
//! binding table, diagnostic remapping of merged-line errors back to the
//! original files, and a hot-reload protocol that swaps a running program
//! atomically while carrying user-set uniform values across the swap.

use vstd::prelude::*;

pub mod color;
pub mod console;
pub mod diagnostics;
pub mod logger;
pub mod preprocess;
pub mod program;
pub mod syntax;
pub mod text;
pub mod timer;
pub mod uniforms;
pub mod watch;

verus! {

/// What one pass of the host's main loop asks for next.
#[derive(Debug, Clone, Copy, PartialEq, Eq, Structural)]
pub enum MainLoopResult {
    Quit,
    Continue,
    Resize(i32, i32),
}

/// A value holder that remembers whether it has changed since it was last
/// consumed; fresh holders start dirty so the first consumer always sees them.
#[derive(Debug)]
pub struct Bindable<T> {
    value: T,
    dirty: bool,
}

impl<T> Bindable<T> {
    /// The held value.
    pub closed spec fn spec_value(&self) -> T {
        self.value
    }

    /// Whether the value changed since `clear_dirty` last ran.
    pub closed spec fn spec_dirty(&self) -> bool {
        self.dirty
    }

    pub fn new(value: T) -> (r: Bindable<T>)
        ensures
            r.spec_value() == value,
            r.spec_dirty(),
    {
        Bindable { value, dirty: true }
    }

    pub fn set(&mut self, value: T)
        ensures
            final(self).spec_value() == value,
            final(self).spec_dirty(),
    {
        self.value = value;
        self.dirty = true;
    }

    pub fn get(&self) -> (r: &T)
        ensures
            *r == self.spec_value(),
    {
        &self.value
    }

    pub fn is_dirty(&self) -> (r: bool)
        ensures
            r == self.spec_dirty(),
    {
        self.dirty
    }

    pub fn clear_dirty(&mut self)
        ensures
            final(self).spec_value() == old(self).spec_value(),
            !final(self).spec_dirty(),
    {
        self.dirty = false;
    }
}

} // verus!

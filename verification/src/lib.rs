//! A miniature object linker: relocatable integer arithmetic, deferred
//! address expressions, dword-granular occupancy probing, an overlap-aware
//! packer that assigns every object a byte offset inside one shared output
//! buffer, a dependency collector, and a relocating writer that serializes
//! the objects and records the two fixup tables handed to the loader.

pub mod error;
pub mod rlocint;
pub mod constexpr;
pub mod prober;
pub mod packer;
pub mod pbuffer;
pub mod collector;
pub mod payload;
pub mod storm;
pub mod epscript;
pub mod layout;

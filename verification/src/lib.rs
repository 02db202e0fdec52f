use vstd::prelude::*;

pub mod android;
pub mod avfoundation;
pub mod dart_cli;
pub mod device;
pub mod device_parse;
pub mod media_foundation;
pub mod pixels;
pub mod rust_math;
pub mod rust_strings;
pub mod session;
pub mod text;
pub mod v4l2;

verus! {

} // verus!

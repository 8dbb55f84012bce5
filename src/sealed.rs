use vstd::prelude::*;

use crate::builder::{FontAssetBuilder, ImageAssetBuilder};

verus! {

/// Keeps the set of declaration types closed.
pub trait Sealed {}

impl Sealed for ImageAssetBuilder {}

impl Sealed for FontAssetBuilder {}

impl Sealed for &'static str {}

} // verus!

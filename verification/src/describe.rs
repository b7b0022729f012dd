//! The producer side: types that know their own syntax structure.
use vstd::prelude::*;

use crate::write::SyntaxWrite;

verus! {

/// Trait for types that can describe their MPEG syntax structure.
///
/// Producers implement this trait on wrapper structs that capture parsed
/// data and any needed context, then call methods on the provided
/// `SyntaxWrite` renderer to emit the syntax structure and field values.
pub trait SyntaxDescribe {
    fn describe<W: SyntaxWrite>(&self, w: &mut W) -> (r: Result<(), W::Error>)
        requires
            old(w).well_formed(),
    ;
}

} // verus!

use vstd::prelude::*;

verus! {

/// The fatal conditions of a conversion run. Every one of them aborts the
/// whole conversion: no partial document is produced.
#[derive(Clone, Copy, PartialEq, Eq, Structural, Debug)]
pub enum LnasError {
    /// The STL bytes are shorter than the fixed layout demands.
    TruncatedStl,
    /// A triangle's stored normal does not have unit length within tolerance.
    InvalidNormal,
    /// A triangle's stored normal agrees with neither vertex ordering.
    /// Carries the position of the triangle in the global triangle list.
    InconsistentNormal(usize),
    /// Two input sources resolve to the same surface name.
    DuplicateSurface,
    /// A file argument does not name an `.stl` file.
    InvalidStlName,
    /// More triangles or vertices than a 32-bit index can address.
    IndexOverflow,
    /// A surface name that the plain document syntax cannot carry.
    UnsafeSurfaceName,
}

} // verus!

//! Positions on the globe.

use vstd::prelude::*;

verus! {

/// A position on the globe.
///
/// Longitude and latitude, in degrees, are carried as the IEEE 754 bit
/// patterns of two double-precision numbers. The crate never does arithmetic
/// on a position: it stores one, hands it back, and compares two for
/// identity, so the patterns are all it needs.
#[derive(Clone, Copy, Debug, PartialEq, Eq, Structural)]
pub struct Coordinate {
    pub lon_bits: u64,
    pub lat_bits: u64,
}

impl Coordinate {
    /// The position with the given longitude and latitude patterns.
    pub fn new(lon_bits: u64, lat_bits: u64) -> (c: Coordinate)
        ensures
            c == (Coordinate { lon_bits, lat_bits }),
    {
        Coordinate { lon_bits, lat_bits }
    }

    /// The bit pattern of the longitude.
    pub fn lon_bits(&self) -> (bits: u64)
        ensures
            bits == self.lon_bits,
    {
        self.lon_bits
    }

    /// The bit pattern of the latitude.
    pub fn lat_bits(&self) -> (bits: u64)
        ensures
            bits == self.lat_bits,
    {
        self.lat_bits
    }
}

} // verus!

//! EPSG codes of the coordinate reference systems the converter knows.

use vstd::prelude::*;

verus! {

/// An EPSG code.
pub type EpsgCode = u16;

/// WGS 84, geographic 2D.
pub const EPSG_WGS84_GEOGRAPHIC_2D: EpsgCode = 4326;

/// WGS 84, geographic 3D.
pub const EPSG_WGS84_GEOGRAPHIC_3D: EpsgCode = 4979;

/// WGS 84, geocentric.
pub const EPSG_WGS84_GEOCENTRIC: EpsgCode = 4978;

/// JGD2011, geographic 2D.
pub const EPSG_JGD2011_GEOGRAPHIC_2D: EpsgCode = 6668;

/// JGD2011, geographic 3D.
pub const EPSG_JGD2011_GEOGRAPHIC_3D: EpsgCode = 6697;

/// JGD2011 / Japan Plane Rectangular CS I with JGD2011 (vertical) height.
/// Zones II to XIII follow in order.
pub const EPSG_JGD2011_JPRECT_I_JGD2011_HEIGHT: EpsgCode = 10162;

/// JGD2011 / Japan Plane Rectangular CS XIII with JGD2011 (vertical) height.
pub const EPSG_JGD2011_JPRECT_XIII_JGD2011_HEIGHT: EpsgCode = 10174;

/// Whether `epsg` names one of the thirteen plane rectangular zones with
/// JGD2011 height.
pub open spec fn is_jprect_with_height(epsg: EpsgCode) -> bool {
    EPSG_JGD2011_JPRECT_I_JGD2011_HEIGHT <= epsg <= EPSG_JGD2011_JPRECT_XIII_JGD2011_HEIGHT
}

/// The number (1 to 13) of the plane rectangular zone that `epsg` names,
/// if it names one.
pub fn jprect_zone(epsg: EpsgCode) -> (zone: Option<u8>)
    ensures
        zone is Some <==> is_jprect_with_height(epsg),
        zone matches Some(z) ==> z == epsg - EPSG_JGD2011_JPRECT_I_JGD2011_HEIGHT + 1,
{
    if EPSG_JGD2011_JPRECT_I_JGD2011_HEIGHT <= epsg && epsg
        <= EPSG_JGD2011_JPRECT_XIII_JGD2011_HEIGHT {
        let offset: u16 = epsg - EPSG_JGD2011_JPRECT_I_JGD2011_HEIGHT;
        Some((offset + 1) as u8)
    } else {
        None
    }
}

} // verus!

//! The city objects that may stand at the top level of a document, and the
//! element that each of them is read from.

use vstd::prelude::*;
use crate::object::Object;
use crate::pipeline::ParseError;
use crate::text::str_eq;

verus! {

/// A top-level city object, by kind.
#[derive(Debug)]
pub enum TopLevelCityObject {
    Unknown,
    //
    // CityGML standard city objects
    //
    Building(Object),
    Road(Object),
    Railway(Object),
    Track(Object),
    Square(Object),
    Waterway(Object),
    Bridge(Object),
    CityFurniture(Object),
    SolitaryVegetationObject(Object),
    PlantCover(Object),
    LandUse(Object),
    Tunnel(Object),
    ReliefFeature(Object),
    WaterBody(Object),
    GenericCityObject(Object),
    CityObjectGroup(Object),
    //
    // i-UR urban objects
    //
    OtherConstruction(Object),
    UndergroundBuilding(Object),
    //
    // i-UR urban functions
    //
    SedimentDisasterProneArea(Object),
}

impl Default for TopLevelCityObject {
    fn default() -> (r: Self)
        ensures
            r is Unknown,
    {
        TopLevelCityObject::Unknown
    }
}

/// The number of kinds of top-level city objects.
pub const TOP_LEVEL_KINDS: usize = 19;

/// The qualified name of the element that the `index`-th kind of top-level
/// city object is read from.
pub open spec fn spec_element_path(index: int) -> Seq<char> {
    if index == 0 {
        "bldg:Building"@
    } else if index == 1 {
        "tran:Road"@
    } else if index == 2 {
        "tran:Railway"@
    } else if index == 3 {
        "tran:Track"@
    } else if index == 4 {
        "tran:Square"@
    } else if index == 5 {
        "uro:Waterway"@
    } else if index == 6 {
        "brid:Bridge"@
    } else if index == 7 {
        "frn:CityFurniture"@
    } else if index == 8 {
        "veg:SolitaryVegetationObject"@
    } else if index == 9 {
        "veg:PlantCover"@
    } else if index == 10 {
        "veg:LandUse"@
    } else if index == 11 {
        "tun:Tunnel"@
    } else if index == 12 {
        "dem:ReliefFeature"@
    } else if index == 13 {
        "wtr:WaterBody"@
    } else if index == 14 {
        "gen:GenericCityObject"@
    } else if index == 15 {
        "grp:CityObjectGroup"@
    } else if index == 16 {
        "uro:OtherConstruction"@
    } else if index == 17 {
        "uro:UndergroundBuilding"@
    } else {
        "urf:SedimentDisasterProneArea"@
    }
}

/// The qualified name of the element that the `index`-th kind of top-level
/// city object is read from.
pub fn element_path(index: usize) -> (path: &'static str)
    requires
        index < TOP_LEVEL_KINDS,
    ensures
        path@ == spec_element_path(index as int),
{
    if index == 0 {
        "bldg:Building"
    } else if index == 1 {
        "tran:Road"
    } else if index == 2 {
        "tran:Railway"
    } else if index == 3 {
        "tran:Track"
    } else if index == 4 {
        "tran:Square"
    } else if index == 5 {
        "uro:Waterway"
    } else if index == 6 {
        "brid:Bridge"
    } else if index == 7 {
        "frn:CityFurniture"
    } else if index == 8 {
        "veg:SolitaryVegetationObject"
    } else if index == 9 {
        "veg:PlantCover"
    } else if index == 10 {
        "veg:LandUse"
    } else if index == 11 {
        "tun:Tunnel"
    } else if index == 12 {
        "dem:ReliefFeature"
    } else if index == 13 {
        "wtr:WaterBody"
    } else if index == 14 {
        "gen:GenericCityObject"
    } else if index == 15 {
        "grp:CityObjectGroup"
    } else if index == 16 {
        "uro:OtherConstruction"
    } else if index == 17 {
        "uro:UndergroundBuilding"
    } else {
        "urf:SedimentDisasterProneArea"
    }
}

/// Whether some kind of top-level city object is read from the element
/// `path`.
pub open spec fn is_known_path(path: Seq<char>) -> bool {
    exists|k: int| 0 <= k < TOP_LEVEL_KINDS && #[trigger] spec_element_path(k) == path
}

/// The kind, by its number, that is read from the element `path`; `None`
/// where no kind is.
pub fn find_kind(path: &str) -> (kind: Option<usize>)
    ensures
        kind is Some == is_known_path(path@),
        kind matches Some(k) ==> k < TOP_LEVEL_KINDS && spec_element_path(k as int) == path@
            && forall|j: int| 0 <= j < k ==> #[trigger] spec_element_path(j) != path@,
{
    let mut k: usize = 0;
    while k < TOP_LEVEL_KINDS
        invariant
            k <= TOP_LEVEL_KINDS,
            forall|j: int| 0 <= j < k ==> #[trigger] spec_element_path(j) != path@,
        decreases TOP_LEVEL_KINDS - k,
    {
        if str_eq(element_path(k), path) {
            return Some(k);
        }
        k += 1;
    }
    None
}

impl TopLevelCityObject {
    /// The number of the kind of this object; `None` for an unknown one.
    pub open spec fn spec_kind(&self) -> Option<int> {
        match self {
            TopLevelCityObject::Unknown => None,
            TopLevelCityObject::Building(_) => Some(0),
            TopLevelCityObject::Road(_) => Some(1),
            TopLevelCityObject::Railway(_) => Some(2),
            TopLevelCityObject::Track(_) => Some(3),
            TopLevelCityObject::Square(_) => Some(4),
            TopLevelCityObject::Waterway(_) => Some(5),
            TopLevelCityObject::Bridge(_) => Some(6),
            TopLevelCityObject::CityFurniture(_) => Some(7),
            TopLevelCityObject::SolitaryVegetationObject(_) => Some(8),
            TopLevelCityObject::PlantCover(_) => Some(9),
            TopLevelCityObject::LandUse(_) => Some(10),
            TopLevelCityObject::Tunnel(_) => Some(11),
            TopLevelCityObject::ReliefFeature(_) => Some(12),
            TopLevelCityObject::WaterBody(_) => Some(13),
            TopLevelCityObject::GenericCityObject(_) => Some(14),
            TopLevelCityObject::CityObjectGroup(_) => Some(15),
            TopLevelCityObject::OtherConstruction(_) => Some(16),
            TopLevelCityObject::UndergroundBuilding(_) => Some(17),
            TopLevelCityObject::SedimentDisasterProneArea(_) => Some(18),
        }
    }

    /// The object that this city object holds; `None` for an unknown one.
    pub open spec fn spec_object(&self) -> Option<Object> {
        match self {
            TopLevelCityObject::Unknown => None,
            TopLevelCityObject::Building(o) => Some(*o),
            TopLevelCityObject::Road(o) => Some(*o),
            TopLevelCityObject::Railway(o) => Some(*o),
            TopLevelCityObject::Track(o) => Some(*o),
            TopLevelCityObject::Square(o) => Some(*o),
            TopLevelCityObject::Waterway(o) => Some(*o),
            TopLevelCityObject::Bridge(o) => Some(*o),
            TopLevelCityObject::CityFurniture(o) => Some(*o),
            TopLevelCityObject::SolitaryVegetationObject(o) => Some(*o),
            TopLevelCityObject::PlantCover(o) => Some(*o),
            TopLevelCityObject::LandUse(o) => Some(*o),
            TopLevelCityObject::Tunnel(o) => Some(*o),
            TopLevelCityObject::ReliefFeature(o) => Some(*o),
            TopLevelCityObject::WaterBody(o) => Some(*o),
            TopLevelCityObject::GenericCityObject(o) => Some(*o),
            TopLevelCityObject::CityObjectGroup(o) => Some(*o),
            TopLevelCityObject::OtherConstruction(o) => Some(*o),
            TopLevelCityObject::UndergroundBuilding(o) => Some(*o),
            TopLevelCityObject::SedimentDisasterProneArea(o) => Some(*o),
        }
    }

    /// The city object of the kind that is read from the element `path`,
    /// holding `object`. An element that no kind is read from is a
    /// violation of the schema, reported with the path of the element.
    pub fn from_element(path: &str, object: Object) -> (r: Result<Self, ParseError>)
        ensures
            r is Ok == is_known_path(path@),
            r matches Ok(city_object) ==> {
                &&& city_object.spec_object() == Some(object)
                &&& city_object.spec_kind() matches Some(k)
                &&& 0 <= k < TOP_LEVEL_KINDS
                &&& spec_element_path(k) == path@
                &&& forall|j: int| 0 <= j < k ==> #[trigger] spec_element_path(j) != path@
            },
            r matches Err(e) ==> e matches ParseError::SchemaViolation(p) && p@ == path@,
    {
        match find_kind(path) {
            None => Err(ParseError::SchemaViolation(path.to_owned())),
            Some(k) => Ok(
                if k == 0 {
                    TopLevelCityObject::Building(object)
                } else if k == 1 {
                    TopLevelCityObject::Road(object)
                } else if k == 2 {
                    TopLevelCityObject::Railway(object)
                } else if k == 3 {
                    TopLevelCityObject::Track(object)
                } else if k == 4 {
                    TopLevelCityObject::Square(object)
                } else if k == 5 {
                    TopLevelCityObject::Waterway(object)
                } else if k == 6 {
                    TopLevelCityObject::Bridge(object)
                } else if k == 7 {
                    TopLevelCityObject::CityFurniture(object)
                } else if k == 8 {
                    TopLevelCityObject::SolitaryVegetationObject(object)
                } else if k == 9 {
                    TopLevelCityObject::PlantCover(object)
                } else if k == 10 {
                    TopLevelCityObject::LandUse(object)
                } else if k == 11 {
                    TopLevelCityObject::Tunnel(object)
                } else if k == 12 {
                    TopLevelCityObject::ReliefFeature(object)
                } else if k == 13 {
                    TopLevelCityObject::WaterBody(object)
                } else if k == 14 {
                    TopLevelCityObject::GenericCityObject(object)
                } else if k == 15 {
                    TopLevelCityObject::CityObjectGroup(object)
                } else if k == 16 {
                    TopLevelCityObject::OtherConstruction(object)
                } else if k == 17 {
                    TopLevelCityObject::UndergroundBuilding(object)
                } else {
                    TopLevelCityObject::SedimentDisasterProneArea(object)
                },
            ),
        }
    }

    /// The object that this city object holds; `None` for an unknown one.
    pub fn into_object(self) -> (r: Option<Object>)
        ensures
            r == self.spec_object(),
    {
        match self {
            TopLevelCityObject::Unknown => None,
            TopLevelCityObject::Building(o) => Some(o),
            TopLevelCityObject::Road(o) => Some(o),
            TopLevelCityObject::Railway(o) => Some(o),
            TopLevelCityObject::Track(o) => Some(o),
            TopLevelCityObject::Square(o) => Some(o),
            TopLevelCityObject::Waterway(o) => Some(o),
            TopLevelCityObject::Bridge(o) => Some(o),
            TopLevelCityObject::CityFurniture(o) => Some(o),
            TopLevelCityObject::SolitaryVegetationObject(o) => Some(o),
            TopLevelCityObject::PlantCover(o) => Some(o),
            TopLevelCityObject::LandUse(o) => Some(o),
            TopLevelCityObject::Tunnel(o) => Some(o),
            TopLevelCityObject::ReliefFeature(o) => Some(o),
            TopLevelCityObject::WaterBody(o) => Some(o),
            TopLevelCityObject::GenericCityObject(o) => Some(o),
            TopLevelCityObject::CityObjectGroup(o) => Some(o),
            TopLevelCityObject::OtherConstruction(o) => Some(o),
            TopLevelCityObject::UndergroundBuilding(o) => Some(o),
            TopLevelCityObject::SedimentDisasterProneArea(o) => Some(o),
        }
    }
}

} // verus!

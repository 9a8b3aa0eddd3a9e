use vstd::prelude::*;

use crate::geom::Geom32;

verus! {

/// Types of geometries supported in MLT.
///
/// The order of the variants is part of the format: the numeric code of a
/// type (see [`GeometryType::code`]) is its position in this list.
#[derive(Debug, Clone, Copy, PartialEq, Eq, Structural, Hash, PartialOrd, Ord)]
pub enum GeometryType {
    Point,
    LineString,
    Polygon,
    MultiPoint,
    MultiLineString,
    MultiPolygon,
}

impl GeometryType {
    /// Position of the type in the declaration order (its wire code).
    pub open spec fn spec_code(self) -> u32 {
        match self {
            GeometryType::Point => 0,
            GeometryType::LineString => 1,
            GeometryType::Polygon => 2,
            GeometryType::MultiPoint => 3,
            GeometryType::MultiLineString => 4,
            GeometryType::MultiPolygon => 5,
        }
    }

    /// `Polygon` or `MultiPolygon`.
    pub open spec fn spec_is_polygon(self) -> bool {
        self == GeometryType::Polygon || self == GeometryType::MultiPolygon
    }

    /// `LineString` or `MultiLineString`.
    pub open spec fn spec_is_linestring(self) -> bool {
        self == GeometryType::LineString || self == GeometryType::MultiLineString
    }

    /// The numeric wire code of the type.
    #[verifier::when_used_as_spec(spec_code)]
    pub fn code(self) -> (c: u32)
        ensures
            c == self.spec_code(),
    {
        match self {
            GeometryType::Point => 0,
            GeometryType::LineString => 1,
            GeometryType::Polygon => 2,
            GeometryType::MultiPoint => 3,
            GeometryType::MultiLineString => 4,
            GeometryType::MultiPolygon => 5,
        }
    }

    /// The type whose wire code is `code`, if any.
    pub fn from_code(code: u32) -> (t: Option<GeometryType>)
        ensures
            t matches Some(g) ==> g.spec_code() == code,
            t is None <==> code > 5,
    {
        match code {
            0 => Some(GeometryType::Point),
            1 => Some(GeometryType::LineString),
            2 => Some(GeometryType::Polygon),
            3 => Some(GeometryType::MultiPoint),
            4 => Some(GeometryType::MultiLineString),
            5 => Some(GeometryType::MultiPolygon),
            _ => None,
        }
    }

    /// Whether the type is `Polygon` or `MultiPolygon`.
    #[verifier::when_used_as_spec(spec_is_polygon)]
    pub fn is_polygon(self) -> (b: bool)
        ensures
            b == self.spec_is_polygon(),
    {
        matches!(self, GeometryType::Polygon | GeometryType::MultiPolygon)
    }

    /// Whether the type is `LineString` or `MultiLineString`.
    #[verifier::when_used_as_spec(spec_is_linestring)]
    pub fn is_linestring(self) -> (b: bool)
        ensures
            b == self.spec_is_linestring(),
    {
        matches!(self, GeometryType::LineString | GeometryType::MultiLineString)
    }

    /// Whether `self` comes after `other` in declaration order.
    pub fn is_after(self, other: GeometryType) -> (b: bool)
        ensures
            b == (self.spec_code() > other.spec_code()),
    {
        self.code() > other.code()
    }
}

impl TryFrom<&Geom32> for GeometryType {
    type Error = ();

    /// The type of a point, line string, polygon or one of their multi
    /// forms; lines, rectangles, triangles and collections have none.
    fn try_from(geom: &Geom32) -> (r: Result<GeometryType, ()>)
        ensures
            r == geom_type_of(*geom),
    {
        match geom {
            Geom32::Point(_) => Ok(GeometryType::Point),
            Geom32::MultiPoint(_) => Ok(GeometryType::MultiPoint),
            Geom32::LineString(_) => Ok(GeometryType::LineString),
            Geom32::MultiLineString(_) => Ok(GeometryType::MultiLineString),
            Geom32::Polygon(_) => Ok(GeometryType::Polygon),
            Geom32::MultiPolygon(_) => Ok(GeometryType::MultiPolygon),
            Geom32::Line(_) | Geom32::GeometryCollection(_) | Geom32::Rect(_) | Geom32::Triangle(
                _,
            ) => Err(()),
        }
    }
}

impl vstd::std_specs::convert::TryFromSpecImpl<&Geom32> for GeometryType {
    open spec fn obeys_try_from_spec() -> bool {
        true
    }

    open spec fn try_from_spec(geom: &Geom32) -> Result<GeometryType, ()> {
        geom_type_of(*geom)
    }
}

/// The geometry type of a point, line string, polygon or one of their multi
/// forms; nothing for other geometries.
pub open spec fn geom_type_of(g: Geom32) -> Result<GeometryType, ()> {
    match g {
        Geom32::Point(_) => Ok(GeometryType::Point),
        Geom32::MultiPoint(_) => Ok(GeometryType::MultiPoint),
        Geom32::LineString(_) => Ok(GeometryType::LineString),
        Geom32::MultiLineString(_) => Ok(GeometryType::MultiLineString),
        Geom32::Polygon(_) => Ok(GeometryType::Polygon),
        Geom32::MultiPolygon(_) => Ok(GeometryType::MultiPolygon),
        _ => Err(()),
    }
}

} // verus!

use vstd::prelude::*;

use crate::svg::AttributeError;

verus! {

/// Why a map (its configuration or its SVG drawing) could not be read.
#[derive(Debug)]
pub enum MapError {
    /// A required configuration entry is missing or of the wrong kind.
    Config(String),
    /// The SVG document is not well-formed XML; the position of the error.
    Xml(u64),
    /// An attribute could not be read.
    Attribute(String, AttributeError),
    /// A required attribute is missing.
    MissingAttribute(String),
    /// A layer appears twice.
    LayerTwice,
    /// The names, centres or units layer needs labels the map does not have.
    UnlabeledLayer,
    /// A province border is not a `path` element.
    NotPath,
    /// A province name does not name a province.
    UnknownProvince(String),
    /// Two provinces have the same name.
    RepeatedProvince(String),
    /// A province is given a second supply centre.
    DuplicateCenter(String),
    /// An adjacency joins a province to itself.
    SelfAdjacency(String),
    /// A unit's marker has a number of sides that is neither 3 nor 6.
    UnitSides(String),
    /// Unit names carry their type, but this one does not start with F or A.
    UnitLabel(String),
    /// A unit stands in a province without an owner.
    NoOwner(String),
    /// An element of a phantom unit layer lies outside any unit group.
    PhantomOutside,
    /// A phantom fleet stands in a coastal province without coasts.
    PhantomSkipped(String),
    /// A high province has a kind other than SEA or LAND.
    HighProvinceType(String),
    /// An SVG path cannot be read; the reason.
    Path(PathError),
    /// An SVG transform cannot be read.
    Transform(String),
    /// The map configuration is not JSON.
    NotJson,
    /// A line of an adjacency list has no comma; the line.
    AdjacencyLine(String),
}

/// Why an SVG path cannot be read.
#[derive(Debug, Clone, Copy, PartialEq, Eq, Structural)]
pub enum PathError {
    /// Two spaces in a row, or a space at either end.
    EmptyToken,
    /// `z` before any point of a polygon.
    CloseWithoutStart,
    /// A command letter that is not an SVG path command.
    UnknownCommand(char),
    /// Arguments after `z`.
    ArgumentsAfterClose,
    /// The path ends before a command's arguments.
    MissingArguments,
    /// A non-vertical, non-horizontal argument without a comma.
    MissingComma,
    /// A coordinate before any command.
    NoCommand,
}

/// A map error as plain values.
pub enum MapErrorView {
    Config(Seq<char>),
    Xml(u64),
    Attribute(Seq<char>, AttributeError),
    MissingAttribute(Seq<char>),
    LayerTwice,
    UnlabeledLayer,
    NotPath,
    UnknownProvince(Seq<char>),
    RepeatedProvince(Seq<char>),
    DuplicateCenter(Seq<char>),
    SelfAdjacency(Seq<char>),
    UnitSides(Seq<char>),
    UnitLabel(Seq<char>),
    NoOwner(Seq<char>),
    PhantomOutside,
    PhantomSkipped(Seq<char>),
    HighProvinceType(Seq<char>),
    Path(PathError),
    Transform(Seq<char>),
    NotJson,
    AdjacencyLine(Seq<char>),
}

pub open spec fn map_error_view(e: MapError) -> MapErrorView {
    match e {
        MapError::Config(s) => MapErrorView::Config(s@),
        MapError::Xml(p) => MapErrorView::Xml(p),
        MapError::Attribute(k, a) => MapErrorView::Attribute(k@, a),
        MapError::MissingAttribute(k) => MapErrorView::MissingAttribute(k@),
        MapError::LayerTwice => MapErrorView::LayerTwice,
        MapError::UnlabeledLayer => MapErrorView::UnlabeledLayer,
        MapError::NotPath => MapErrorView::NotPath,
        MapError::UnknownProvince(s) => MapErrorView::UnknownProvince(s@),
        MapError::RepeatedProvince(s) => MapErrorView::RepeatedProvince(s@),
        MapError::DuplicateCenter(s) => MapErrorView::DuplicateCenter(s@),
        MapError::SelfAdjacency(s) => MapErrorView::SelfAdjacency(s@),
        MapError::UnitSides(s) => MapErrorView::UnitSides(s@),
        MapError::UnitLabel(s) => MapErrorView::UnitLabel(s@),
        MapError::NoOwner(s) => MapErrorView::NoOwner(s@),
        MapError::PhantomOutside => MapErrorView::PhantomOutside,
        MapError::PhantomSkipped(s) => MapErrorView::PhantomSkipped(s@),
        MapError::HighProvinceType(s) => MapErrorView::HighProvinceType(s@),
        MapError::Path(p) => MapErrorView::Path(p),
        MapError::Transform(s) => MapErrorView::Transform(s@),
        MapError::NotJson => MapErrorView::NotJson,
        MapError::AdjacencyLine(s) => MapErrorView::AdjacencyLine(s@),
    }
}

} // verus!

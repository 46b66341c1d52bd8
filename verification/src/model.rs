//! What a snapshot says: distributions, their properties, and the values of those.

use vstd::prelude::*;
use crate::index::StrMap;

verus! {

/// The value of a property as a mathematical value.
pub enum ValueView {
    /// No version is recorded.
    Undefined,
    /// The characters of a version expression.
    VersionSpec(Seq<char>),
}

/// The value that a snapshot gives to a property.
#[derive(Clone, Copy, Debug, PartialEq, Eq)]
pub enum PropertyValue<'a> {
    /// The snapshot says `undef`: no version is recorded.
    Undefined,
    /// A version expression, kept as it is written.
    VersionSpec(&'a str),
}

impl<'a> View for PropertyValue<'a> {
    type V = ValueView;

    open spec fn view(&self) -> ValueView {
        match self {
            PropertyValue::Undefined => ValueView::Undefined,
            PropertyValue::VersionSpec(text) => ValueView::VersionSpec(text@),
        }
    }
}

/// The properties of one section of a distribution, by key.
pub type Properties<'a> = StrMap<'a, PropertyValue<'a>>;

/// A distribution as a mathematical value.
pub struct DistView {
    /// The path of the distribution's archive.
    pub pathname: Seq<char>,
    /// What the distribution provides, if the snapshot has that section.
    pub provides: Option<Map<Seq<char>, ValueView>>,
    /// What the distribution requires, if the snapshot has that section.
    pub requirements: Option<Map<Seq<char>, ValueView>>,
}

/// One distribution of a snapshot.
///
/// A section that the snapshot does not have is `None`; one that it has without any
/// property line is an empty map.
#[derive(Debug)]
pub struct Dist<'a> {
    /// The path of the distribution's archive.
    pub pathname: &'a str,
    /// What the distribution provides.
    pub provides: Option<Properties<'a>>,
    /// What the distribution requires.
    pub requirements: Option<Properties<'a>>,
}

/// The properties of an optional section as a mathematical value.
pub open spec fn section_view<'a>(section: Option<Properties<'a>>) -> Option<
    Map<Seq<char>, ValueView>,
> {
    match section {
        Some(properties) => Some(properties@),
        None => None,
    }
}

impl<'a> View for Dist<'a> {
    type V = DistView;

    open spec fn view(&self) -> DistView {
        DistView {
            pathname: self.pathname@,
            provides: section_view(self.provides),
            requirements: section_view(self.requirements),
        }
    }
}

/// The distributions of a snapshot, by name.
pub type Dists<'a> = StrMap<'a, Dist<'a>>;

} // verus!

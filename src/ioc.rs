use vstd::prelude::*;
use crate::order::{compare_names, name_lt};

verus! {

/// What is known of one IOC, gathered from the redirect table or from a
/// builder descriptor.
#[derive(Debug)]
pub struct PartialIOC {
    pub name: String,
    pub description: String,
    pub version: String,
    pub builder: bool,
}

/// The value of a `PartialIOC`.
pub struct IocView {
    pub name: Seq<char>,
    pub description: Seq<char>,
    pub version: Seq<char>,
    pub builder: bool,
}

impl View for PartialIOC {
    type V = IocView;

    open spec fn view(&self) -> IocView {
        IocView {
            name: self.name@,
            description: self.description@,
            version: self.version@,
            builder: self.builder,
        }
    }
}

/// The description held for a README whose first line is `d`, if it could
/// be read: that line, else nothing.
pub open spec fn description_of(d: Option<String>) -> Seq<char> {
    match d {
        Some(line) => line@,
        None => Seq::empty(),
    }
}

/// The version recorded for an IOC known only from its builder descriptor.
pub open spec fn builder_version() -> Seq<char> {
    "BUILDER"@
}

/// `x` with the builder flag of both `x` and `y`.
pub open spec fn absorb(x: IocView, y: IocView) -> IocView {
    IocView { builder: x.builder || y.builder, ..x }
}

impl PartialIOC {
    /// A record from its parts; `description` is the first line of the
    /// IOC's README where that could be read.
    pub fn new(name: String, version: String, description: Option<String>, builder: bool) -> (r:
        Self)
        ensures
            r@ == (IocView {
                name: name@,
                description: description_of(description),
                version: version@,
                builder,
            }),
    {
        let description = match description {
            Some(line) => line,
            None => String::new(),
        };
        PartialIOC { name, description, version, builder }
    }

    /// The record of an IOC found among the builder descriptors.
    pub fn from_builder_ioc(name: String, description: Option<String>) -> (r: Self)
        ensures
            r@ == (IocView {
                name: name@,
                description: description_of(description),
                version: builder_version(),
                builder: true,
            }),
    {
        PartialIOC::new(name, String::from_str("BUILDER"), description, true)
    }

    /// The record of an IOC found in the redirect table, with the version
    /// read off its path.
    pub fn from_configured_ioc(name: String, version: String, description: Option<String>) -> (r:
        Self)
        ensures
            r@ == (IocView {
                name: name@,
                description: description_of(description),
                version: version@,
                builder: false,
            }),
    {
        PartialIOC::new(name, version, description, false)
    }

    /// Whether the two records are of one IOC.
    pub fn same_name(&self, other: &Self) -> (r: bool)
        ensures
            r == (self.name@ == other.name@),
    {
        self.name == other.name
    }

    /// A record with the same contents.
    pub fn duplicate(&self) -> (r: Self)
        ensures
            r@ == self@,
    {
        PartialIOC {
            name: self.name.clone(),
            description: self.description.clone(),
            version: self.version.clone(),
            builder: self.builder,
        }
    }

    /// Whether this record's name sorts before `other`'s.
    pub fn precedes(&self, other: &Self) -> (r: bool)
        ensures
            r == name_lt(self.name@, other.name@),
    {
        match self.cmp_name(other) {
            std::cmp::Ordering::Less => true,
            _ => false,
        }
    }

    /// How the two records compare by name.
    pub fn cmp_name(&self, other: &Self) -> (r: std::cmp::Ordering)
        ensures
            r == std::cmp::Ordering::Less <==> name_lt(self.name@, other.name@),
            r == std::cmp::Ordering::Equal <==> self.name@ == other.name@,
            r == std::cmp::Ordering::Greater <==> name_lt(other.name@, self.name@),
    {
        compare_names(self.name.as_str(), other.name.as_str())
    }

    /// Takes in what `rhs` knows of the same IOC: its builder flag. All else
    /// stays as it was.
    pub fn add_assign(&mut self, rhs: Self)
        ensures
            final(self)@ == absorb(old(self)@, rhs@),
    {
        self.builder = self.builder || rhs.builder;
    }
}

} // verus!

//! Package identifiers: `origin/name`, `origin/name/version` and
//! `origin/name/version/release`.
//!
//! An identifier is seen as the sequence of its parts, two, three or four of
//! them, and its text is the parts joined by `/`.

use vstd::prelude::*;
use vstd::std_specs::cmp::PartialEqSpecImpl;
use vstd::std_specs::convert::FromSpecImpl;
use vstd::string::StringExecFns;

use crate::error::{Error, ErrorView};
use crate::target::{target_name, PackageTarget};
use crate::text::{
    contains_char, join, join_text, lemma_split_join, lemma_split_pieces, split, split_text, views,
};

verus! {

/// The character between the parts of an identifier.
pub const SEPARATOR: char = '/';

/// A text that can stand as one part of an identifier.
pub open spec fn valid_segment(s: Seq<char>) -> bool {
    s.len() > 0 && !s.contains('/')
}

/// Every part can stand as a part of an identifier.
pub open spec fn valid_segments(parts: Seq<Seq<char>>) -> bool {
    forall|i: int| 0 <= i < parts.len() ==> valid_segment(#[trigger] parts[i])
}

/// No part is empty.
pub open spec fn none_empty(parts: Seq<Seq<char>>) -> bool {
    forall|i: int| 0 <= i < parts.len() ==> (#[trigger] parts[i]).len() > 0
}

/// The parts of an identifier that is written as `text`, if `text` is an
/// identifier of at least `least` and at most `most` parts.
pub open spec fn parse_segments(text: Seq<char>, least: int, most: int) -> Option<Seq<Seq<char>>> {
    let parts = split(text, '/');
    if least <= parts.len() <= most && none_empty(parts) {
        Some(parts)
    } else {
        None
    }
}

/// The parts of the identifier that is written as `text`.
pub open spec fn parse_ident(text: Seq<char>) -> Option<Seq<Seq<char>>> {
    parse_segments(text, 2, 4)
}

/// The text of an identifier.
pub open spec fn print_segments(parts: Seq<Seq<char>>) -> Seq<char> {
    join(parts, '/')
}

/// What is read from a text are parts that can stand in an identifier.
pub proof fn lemma_parsed_is_valid(text: Seq<char>, least: int, most: int)
    requires
        parse_segments(text, least, most) is Some,
    ensures
        valid_segments(parse_segments(text, least, most).unwrap()),
        print_segments(parse_segments(text, least, most).unwrap()) == text,
{
    lemma_split_pieces(text, '/');
    crate::text::lemma_join_split(text, '/');
    let parts = split(text, '/');
    assert forall|i: int| 0 <= i < parts.len() implies valid_segment(#[trigger] parts[i]) by {
        assert(parts[i].len() > 0);
    }
}

/// Reading the text of valid parts gives the parts back.
pub proof fn lemma_parse_print_segments(parts: Seq<Seq<char>>, least: int, most: int)
    requires
        valid_segments(parts),
        1 <= least <= parts.len() <= most,
    ensures
        parse_segments(print_segments(parts), least, most) == Some(parts),
{
    assert forall|i: int| 0 <= i < parts.len() implies !(#[trigger] parts[i]).contains('/') by {
        assert(valid_segment(parts[i]));
    }
    lemma_split_join(parts, '/');
    assert forall|i: int| 0 <= i < parts.len() implies (#[trigger] parts[i]).len() > 0 by {
        assert(valid_segment(parts[i]));
    }
}

fn segment_is_valid(value: &str) -> (r: bool)
    ensures
        r == valid_segment(value@),
{
    !value.is_empty() && !contains_char(value, SEPARATOR)
}

/// The namespace of a publisher.
#[derive(Debug, Eq, Hash, PartialOrd, Ord)]
pub struct Origin(String);

impl View for Origin {
    type V = Seq<char>;

    closed spec fn view(&self) -> Seq<char> {
        self.0@
    }
}

impl Clone for Origin {
    fn clone(&self) -> (r: Self)
        ensures
            r@ == self@,
    {
        Origin(self.0.clone())
    }
}

impl PartialEq for Origin {
    fn eq(&self, other: &Self) -> (r: bool) {
        self.0 == other.0
    }
}

impl PartialEqSpecImpl for Origin {
    open spec fn obeys_eq_spec() -> bool {
        true
    }

    open spec fn eq_spec(&self, other: &Self) -> bool {
        self@ == other@
    }
}

impl Origin {
    /// Takes a text that can stand as one part of an identifier: one that is
    /// not empty and holds no `/`.
    pub fn new(value: &str) -> (r: Result<Origin, Error>)
        ensures
            match r {
                Ok(part) => valid_segment(value@) && part@ == value@,
                Err(e) => !valid_segment(value@) && e@ == ErrorView::InvalidPackageIdent(value@),
            },
    {
        if segment_is_valid(value) {
            Ok(Origin(value.to_owned()))
        } else {
            Err(Error::InvalidPackageIdent(value.to_owned()))
        }
    }

    pub fn as_str(&self) -> (s: &str)
        ensures
            s@ == self@,
    {
        self.0.as_str()
    }

    pub fn to_string(&self) -> (s: String)
        ensures
            s@ == self@,
    {
        self.0.clone()
    }
}

/// The short name of a package within an origin.
#[derive(Debug, Eq, Hash, PartialOrd, Ord)]
pub struct Name(String);

impl View for Name {
    type V = Seq<char>;

    closed spec fn view(&self) -> Seq<char> {
        self.0@
    }
}

impl Clone for Name {
    fn clone(&self) -> (r: Self)
        ensures
            r@ == self@,
    {
        Name(self.0.clone())
    }
}

impl PartialEq for Name {
    fn eq(&self, other: &Self) -> (r: bool) {
        self.0 == other.0
    }
}

impl PartialEqSpecImpl for Name {
    open spec fn obeys_eq_spec() -> bool {
        true
    }

    open spec fn eq_spec(&self, other: &Self) -> bool {
        self@ == other@
    }
}

impl Name {
    /// Takes a text that can stand as one part of an identifier: one that is
    /// not empty and holds no `/`.
    pub fn new(value: &str) -> (r: Result<Name, Error>)
        ensures
            match r {
                Ok(part) => valid_segment(value@) && part@ == value@,
                Err(e) => !valid_segment(value@) && e@ == ErrorView::InvalidPackageIdent(value@),
            },
    {
        if segment_is_valid(value) {
            Ok(Name(value.to_owned()))
        } else {
            Err(Error::InvalidPackageIdent(value.to_owned()))
        }
    }

    pub fn as_str(&self) -> (s: &str)
        ensures
            s@ == self@,
    {
        self.0.as_str()
    }

    pub fn to_string(&self) -> (s: String)
        ensures
            s@ == self@,
    {
        self.0.clone()
    }
}

/// The version that the producer gave a package.
#[derive(Debug, Eq, Hash, PartialOrd, Ord)]
pub struct Version(String);

impl View for Version {
    type V = Seq<char>;

    closed spec fn view(&self) -> Seq<char> {
        self.0@
    }
}

impl Clone for Version {
    fn clone(&self) -> (r: Self)
        ensures
            r@ == self@,
    {
        Version(self.0.clone())
    }
}

impl PartialEq for Version {
    fn eq(&self, other: &Self) -> (r: bool) {
        self.0 == other.0
    }
}

impl PartialEqSpecImpl for Version {
    open spec fn obeys_eq_spec() -> bool {
        true
    }

    open spec fn eq_spec(&self, other: &Self) -> bool {
        self@ == other@
    }
}

impl Version {
    /// Takes a text that can stand as one part of an identifier: one that is
    /// not empty and holds no `/`.
    pub fn new(value: &str) -> (r: Result<Version, Error>)
        ensures
            match r {
                Ok(part) => valid_segment(value@) && part@ == value@,
                Err(e) => !valid_segment(value@) && e@ == ErrorView::InvalidPackageIdent(value@),
            },
    {
        if segment_is_valid(value) {
            Ok(Version(value.to_owned()))
        } else {
            Err(Error::InvalidPackageIdent(value.to_owned()))
        }
    }

    pub fn as_str(&self) -> (s: &str)
        ensures
            s@ == self@,
    {
        self.0.as_str()
    }

    pub fn to_string(&self) -> (s: String)
        ensures
            s@ == self@,
    {
        self.0.clone()
    }
}

/// The time at which a package was built, as digits: later builds have larger releases.
#[derive(Debug, Eq, Hash, PartialOrd, Ord)]
pub struct Release(String);

impl View for Release {
    type V = Seq<char>;

    closed spec fn view(&self) -> Seq<char> {
        self.0@
    }
}

impl Clone for Release {
    fn clone(&self) -> (r: Self)
        ensures
            r@ == self@,
    {
        Release(self.0.clone())
    }
}

impl PartialEq for Release {
    fn eq(&self, other: &Self) -> (r: bool) {
        self.0 == other.0
    }
}

impl PartialEqSpecImpl for Release {
    open spec fn obeys_eq_spec() -> bool {
        true
    }

    open spec fn eq_spec(&self, other: &Self) -> bool {
        self@ == other@
    }
}

impl Release {
    /// Takes a text that can stand as one part of an identifier: one that is
    /// not empty and holds no `/`.
    pub fn new(value: &str) -> (r: Result<Release, Error>)
        ensures
            match r {
                Ok(part) => valid_segment(value@) && part@ == value@,
                Err(e) => !valid_segment(value@) && e@ == ErrorView::InvalidPackageIdent(value@),
            },
    {
        if segment_is_valid(value) {
            Ok(Release(value.to_owned()))
        } else {
            Err(Error::InvalidPackageIdent(value.to_owned()))
        }
    }

    pub fn as_str(&self) -> (s: &str)
        ensures
            s@ == self@,
    {
        self.0.as_str()
    }

    pub fn to_string(&self) -> (s: String)
        ensures
            s@ == self@,
    {
        self.0.clone()
    }
}

/// An identifier of origin and name.
#[derive(Debug, Eq, Hash)]
pub struct NameIdent {
    pub origin: Origin,
    pub name: Name,
}

/// An identifier of origin, name and version.
#[derive(Debug, Eq, Hash)]
pub struct VersionIdent {
    pub origin: Origin,
    pub name: Name,
    pub version: Version,
}

/// An identifier of origin, name, version and release: it is fully qualified.
#[derive(Debug, Eq, Hash)]
pub struct ReleaseIdent {
    pub origin: Origin,
    pub name: Name,
    pub version: Version,
    pub release: Release,
}

/// An identifier of a package: the more parts it has, the fewer packages it
/// can stand for.
#[derive(Debug, Eq, Hash)]
pub enum Ident {
    Release(ReleaseIdent),
    Version(VersionIdent),
    Name(NameIdent),
}

impl View for NameIdent {
    type V = Seq<Seq<char>>;

    open spec fn view(&self) -> Seq<Seq<char>> {
        seq![self.origin@, self.name@]
    }
}

impl View for VersionIdent {
    type V = Seq<Seq<char>>;

    open spec fn view(&self) -> Seq<Seq<char>> {
        seq![self.origin@, self.name@, self.version@]
    }
}

impl View for ReleaseIdent {
    type V = Seq<Seq<char>>;

    open spec fn view(&self) -> Seq<Seq<char>> {
        seq![self.origin@, self.name@, self.version@, self.release@]
    }
}

impl View for Ident {
    type V = Seq<Seq<char>>;

    open spec fn view(&self) -> Seq<Seq<char>> {
        match self {
            Ident::Release(i) => i@,
            Ident::Version(i) => i@,
            Ident::Name(i) => i@,
        }
    }
}

impl DeepView for ReleaseIdent {
    type V = Seq<Seq<char>>;

    open spec fn deep_view(&self) -> Seq<Seq<char>> {
        self@
    }
}

impl DeepView for Ident {
    type V = Seq<Seq<char>>;

    open spec fn deep_view(&self) -> Seq<Seq<char>> {
        self@
    }
}

/// The version among the parts of an identifier.
pub open spec fn version_of(parts: Seq<Seq<char>>) -> Option<Seq<char>> {
    if parts.len() >= 3 {
        Some(parts[2])
    } else {
        None
    }
}

/// The release among the parts of an identifier.
pub open spec fn release_of(parts: Seq<Seq<char>>) -> Option<Seq<char>> {
    if parts.len() >= 4 {
        Some(parts[3])
    } else {
        None
    }
}

/// Whether a package with the parts `this` answers a request for `other`:
/// origin and name are the same, and so is each of version and release that
/// both have.
pub open spec fn satisfies_spec(this: Seq<Seq<char>>, other: Seq<Seq<char>>) -> bool {
    &&& this[0] == other[0]
    &&& this[1] == other[1]
    &&& (this.len() >= 3 && other.len() >= 3 ==> this[2] == other[2])
    &&& (this.len() >= 4 && other.len() >= 4 ==> this[3] == other[3])
}

impl Clone for NameIdent {
    fn clone(&self) -> (r: Self)
        ensures
            r@ == self@,
    {
        NameIdent { origin: self.origin.clone(), name: self.name.clone() }
    }
}

impl Clone for VersionIdent {
    fn clone(&self) -> (r: Self)
        ensures
            r@ == self@,
    {
        VersionIdent {
            origin: self.origin.clone(),
            name: self.name.clone(),
            version: self.version.clone(),
        }
    }
}

impl Clone for ReleaseIdent {
    fn clone(&self) -> (r: Self)
        ensures
            r@ == self@,
    {
        ReleaseIdent {
            origin: self.origin.clone(),
            name: self.name.clone(),
            version: self.version.clone(),
            release: self.release.clone(),
        }
    }
}

impl Clone for Ident {
    fn clone(&self) -> (r: Self)
        ensures
            r@ == self@,
            r is Release == self is Release,
            r is Version == self is Version,
    {
        match self {
            Ident::Release(i) => Ident::Release(i.clone()),
            Ident::Version(i) => Ident::Version(i.clone()),
            Ident::Name(i) => Ident::Name(i.clone()),
        }
    }
}

impl PartialEq for NameIdent {
    fn eq(&self, other: &Self) -> (r: bool) {
        let r = self.origin == other.origin && self.name == other.name;
        proof {
            if self@ == other@ {
                assert(self@[0] == other@[0] && self@[1] == other@[1]);
            }
        }
        r
    }
}

impl PartialEqSpecImpl for NameIdent {
    open spec fn obeys_eq_spec() -> bool {
        true
    }

    open spec fn eq_spec(&self, other: &Self) -> bool {
        self@ == other@
    }
}

impl PartialEq for VersionIdent {
    fn eq(&self, other: &Self) -> (r: bool) {
        let r = self.origin == other.origin && self.name == other.name && self.version
            == other.version;
        proof {
            if self@ == other@ {
                assert(self@[0] == other@[0] && self@[1] == other@[1] && self@[2] == other@[2]);
            }
        }
        r
    }
}

impl PartialEqSpecImpl for VersionIdent {
    open spec fn obeys_eq_spec() -> bool {
        true
    }

    open spec fn eq_spec(&self, other: &Self) -> bool {
        self@ == other@
    }
}

impl PartialEq for ReleaseIdent {
    fn eq(&self, other: &Self) -> (r: bool) {
        let r = self.origin == other.origin && self.name == other.name && self.version
            == other.version && self.release == other.release;
        proof {
            if self@ == other@ {
                assert(self@[0] == other@[0] && self@[1] == other@[1] && self@[2] == other@[2]
                    && self@[3] == other@[3]);
            }
        }
        r
    }
}

impl PartialEqSpecImpl for ReleaseIdent {
    open spec fn obeys_eq_spec() -> bool {
        true
    }

    open spec fn eq_spec(&self, other: &Self) -> bool {
        self@ == other@
    }
}

impl PartialEq for Ident {
    fn eq(&self, other: &Self) -> (r: bool) {
        match (self, other) {
            (Ident::Release(a), Ident::Release(b)) => a == b,
            (Ident::Version(a), Ident::Version(b)) => a == b,
            (Ident::Name(a), Ident::Name(b)) => a == b,
            _ => {
                proof {
                    assert(self@.len() != other@.len());
                }
                false
            },
        }
    }
}

impl PartialEqSpecImpl for Ident {
    open spec fn obeys_eq_spec() -> bool {
        true
    }

    open spec fn eq_spec(&self, other: &Self) -> bool {
        self@ == other@
    }
}

impl From<NameIdent> for Ident {
    fn from(ident: NameIdent) -> (r: Ident) {
        Ident::Name(ident)
    }
}

impl FromSpecImpl<NameIdent> for Ident {
    open spec fn obeys_from_spec() -> bool {
        true
    }

    open spec fn from_spec(ident: NameIdent) -> Ident {
        Ident::Name(ident)
    }
}

impl From<VersionIdent> for Ident {
    fn from(ident: VersionIdent) -> (r: Ident) {
        Ident::Version(ident)
    }
}

impl FromSpecImpl<VersionIdent> for Ident {
    open spec fn obeys_from_spec() -> bool {
        true
    }

    open spec fn from_spec(ident: VersionIdent) -> Ident {
        Ident::Version(ident)
    }
}

impl From<ReleaseIdent> for Ident {
    fn from(ident: ReleaseIdent) -> (r: Ident) {
        Ident::Release(ident)
    }
}

impl FromSpecImpl<ReleaseIdent> for Ident {
    open spec fn obeys_from_spec() -> bool {
        true
    }

    open spec fn from_spec(ident: ReleaseIdent) -> Ident {
        Ident::Release(ident)
    }
}

/// The text of an archive's name: the parts and the target joined by `-`,
/// and the ending `.hart`.
pub open spec fn archive_name_of(parts: Seq<Seq<char>>, target: PackageTarget) -> Seq<char> {
    join(parts.push(target_name(target)), '-') + ".hart"@
}

/// The text of the identifier that lacks a version and has a release.
pub open spec fn release_without_version(
    origin: Seq<char>,
    name: Seq<char>,
    release: Seq<char>,
) -> Seq<char> {
    origin + "/"@ + name + "//"@ + release
}

/// The first of the texts that cannot stand as a part of an identifier.
pub open spec fn first_invalid(parts: Seq<Seq<char>>) -> Option<Seq<char>>
    decreases parts.len(),
{
    if parts.len() == 0 {
        None
    } else if !valid_segment(parts[0]) {
        Some(parts[0])
    } else {
        first_invalid(parts.drop_first())
    }
}

/// The first text that cannot stand as a part, found by its place.
pub proof fn lemma_first_invalid_at(parts: Seq<Seq<char>>, i: int)
    requires
        0 <= i < parts.len(),
        !valid_segment(parts[i]),
        forall|k: int| 0 <= k < i ==> valid_segment(#[trigger] parts[k]),
    ensures
        first_invalid(parts) == Some(parts[i]),
    decreases i,
{
    if i > 0 {
        let rest = parts.drop_first();
        assert(valid_segment(parts[0]));
        assert forall|k: int| 0 <= k < i - 1 implies valid_segment(#[trigger] rest[k]) by {
            assert(rest[k] == parts[k + 1]);
        }
        assert(rest[i - 1] == parts[i]);
        lemma_first_invalid_at(rest, i - 1);
    }
}

impl NameIdent {
    pub open spec fn well_formed(&self) -> bool {
        valid_segments(self@)
    }

    pub fn new(origin: Origin, name: Name) -> (r: NameIdent)
        ensures
            r@ == seq![origin@, name@],
    {
        NameIdent { origin, name }
    }

    /// Builds the identifier from the texts of its parts. The first text
    /// that cannot stand as a part is refused.
    pub fn from_raw_parts(origin: &str, name: &str) -> (r: Result<NameIdent, Error>)
        ensures
            match r {
                Ok(ident) => ident@ == seq![origin@, name@] && ident.well_formed(),
                Err(e) => first_invalid(seq![origin@, name@]) is Some && e@
                    == ErrorView::InvalidPackageIdent(
                    first_invalid(seq![origin@, name@]).unwrap(),
                ),
            },
    {
        let ghost parts = seq![origin@, name@];
        let origin = match Origin::new(origin) {
            Ok(part) => part,
            Err(e) => {
                proof {
                    lemma_first_invalid_at(parts, 0);
                }
                return Err(e);
            },
        };
        let name = match Name::new(name) {
            Ok(part) => part,
            Err(e) => {
                proof {
                    lemma_first_invalid_at(parts, 1);
                }
                return Err(e);
            },
        };
        Ok(NameIdent::new(origin, name))
    }

    pub fn origin(&self) -> (r: &Origin)
        ensures
            r@ == self@[0],
    {
        &self.origin
    }

    pub fn name(&self) -> (r: &Name)
        ensures
            r@ == self@[1],
    {
        &self.name
    }

    pub fn iter(&self) -> (r: NameIdentIter<'_>)
        ensures
            r.items() == self@,
            r.position() == 0,
    {
        NameIdentIter { inner: self, pos: 0 }
    }

    /// Reads `origin/name`.
    pub fn from_str(value: &str) -> (r: Result<NameIdent, Error>)
        ensures
            match r {
                Ok(ident) => parse_segments(value@, 2, 2) == Some(ident@) && ident.well_formed(),
                Err(e) => parse_segments(value@, 2, 2) is None && e@ == ErrorView::InvalidNameIdent(
                    value@,
                ),
            },
    {
        let parts = split_text(value, SEPARATOR);
        proof {
            lemma_split_pieces(value@, '/');
        }
        if parts.len() == 2 && !parts[0].as_str().is_empty() && !parts[1].as_str().is_empty() {
            let ident = NameIdent { origin: Origin(parts[0].clone()), name: Name(parts[1].clone()) };
            proof {
                let p = split(value@, '/');
                assert(p[0] == parts@[0]@ && p[1] == parts@[1]@);
                assert(ident@ =~= p);
                assert(p[0].len() > 0 && p[1].len() > 0);
                lemma_parsed_is_valid(value@, 2, 2);
            }
            Ok(ident)
        } else {
            proof {
                let p = split(value@, '/');
                if p.len() == 2 {
                    assert(p[0] == parts@[0]@ && p[1] == parts@[1]@);
                }
            }
            Err(Error::InvalidNameIdent(value.to_owned()))
        }
    }

    /// Writes `origin/name`.
    pub fn to_string(&self) -> (r: String)
        ensures
            r@ == print_segments(self@),
    {
        let mut parts: Vec<String> = Vec::new();
        parts.push(self.origin.to_string());
        parts.push(self.name.to_string());
        proof {
            assert(views(parts@) =~= self@);
        }
        join_text(&parts, SEPARATOR)
    }
}

impl VersionIdent {
    pub open spec fn well_formed(&self) -> bool {
        valid_segments(self@)
    }

    pub fn new(origin: Origin, name: Name, version: Version) -> (r: VersionIdent)
        ensures
            r@ == seq![origin@, name@, version@],
    {
        VersionIdent { origin, name, version }
    }

    /// Builds the identifier from the texts of its parts. The first text
    /// that cannot stand as a part is refused.
    pub fn from_raw_parts(origin: &str, name: &str, version: &str) -> (r: Result<
        VersionIdent,
        Error,
    >)
        ensures
            match r {
                Ok(ident) => ident@ == seq![origin@, name@, version@] && ident.well_formed(),
                Err(e) => first_invalid(seq![origin@, name@, version@]) is Some && e@
                    == ErrorView::InvalidPackageIdent(
                    first_invalid(seq![origin@, name@, version@]).unwrap(),
                ),
            },
    {
        let ghost parts = seq![origin@, name@, version@];
        let origin = match Origin::new(origin) {
            Ok(part) => part,
            Err(e) => {
                proof {
                    lemma_first_invalid_at(parts, 0);
                }
                return Err(e);
            },
        };
        let name = match Name::new(name) {
            Ok(part) => part,
            Err(e) => {
                proof {
                    lemma_first_invalid_at(parts, 1);
                }
                return Err(e);
            },
        };
        let version = match Version::new(version) {
            Ok(part) => part,
            Err(e) => {
                proof {
                    lemma_first_invalid_at(parts, 2);
                }
                return Err(e);
            },
        };
        Ok(VersionIdent::new(origin, name, version))
    }

    pub fn origin(&self) -> (r: &Origin)
        ensures
            r@ == self@[0],
    {
        &self.origin
    }

    pub fn name(&self) -> (r: &Name)
        ensures
            r@ == self@[1],
    {
        &self.name
    }

    pub fn version(&self) -> (r: &Version)
        ensures
            r@ == self@[2],
    {
        &self.version
    }

    pub fn iter(&self) -> (r: VersionIdentIter<'_>)
        ensures
            r.items() == self@,
            r.position() == 0,
    {
        VersionIdentIter { inner: self, pos: 0 }
    }

    /// Reads `origin/name/version`.
    pub fn from_str(value: &str) -> (r: Result<VersionIdent, Error>)
        ensures
            match r {
                Ok(ident) => parse_segments(value@, 3, 3) == Some(ident@) && ident.well_formed(),
                Err(e) => parse_segments(value@, 3, 3) is None && e@
                    == ErrorView::InvalidVersionIdent(value@),
            },
    {
        let parts = split_text(value, SEPARATOR);
        proof {
            lemma_split_pieces(value@, '/');
        }
        if parts.len() == 3 && !parts[0].as_str().is_empty() && !parts[1].as_str().is_empty()
            && !parts[2].as_str().is_empty() {
            let ident = VersionIdent {
                origin: Origin(parts[0].clone()),
                name: Name(parts[1].clone()),
                version: Version(parts[2].clone()),
            };
            proof {
                let p = split(value@, '/');
                assert(p[0] == parts@[0]@ && p[1] == parts@[1]@ && p[2] == parts@[2]@);
                assert(ident@ =~= p);
                assert(p[0].len() > 0 && p[1].len() > 0 && p[2].len() > 0);
                lemma_parsed_is_valid(value@, 3, 3);
            }
            Ok(ident)
        } else {
            proof {
                let p = split(value@, '/');
                if p.len() == 3 {
                    assert(p[0] == parts@[0]@ && p[1] == parts@[1]@ && p[2] == parts@[2]@);
                }
            }
            Err(Error::InvalidVersionIdent(value.to_owned()))
        }
    }

    /// Writes `origin/name/version`.
    pub fn to_string(&self) -> (r: String)
        ensures
            r@ == print_segments(self@),
    {
        let mut parts: Vec<String> = Vec::new();
        parts.push(self.origin.to_string());
        parts.push(self.name.to_string());
        parts.push(self.version.to_string());
        proof {
            assert(views(parts@) =~= self@);
        }
        join_text(&parts, SEPARATOR)
    }
}

impl ReleaseIdent {
    pub open spec fn well_formed(&self) -> bool {
        valid_segments(self@)
    }

    pub fn new(origin: Origin, name: Name, version: Version, release: Release) -> (r: ReleaseIdent)
        ensures
            r@ == seq![origin@, name@, version@, release@],
    {
        ReleaseIdent { origin, name, version, release }
    }

    /// Builds the identifier from the texts of its parts. The first text
    /// that cannot stand as a part is refused.
    pub fn from_raw_parts(origin: &str, name: &str, version: &str, release: &str) -> (r: Result<
        ReleaseIdent,
        Error,
    >)
        ensures
            match r {
                Ok(ident) => ident@ == seq![origin@, name@, version@, release@]
                    && ident.well_formed(),
                Err(e) => first_invalid(seq![origin@, name@, version@, release@]) is Some && e@
                    == ErrorView::InvalidPackageIdent(
                    first_invalid(seq![origin@, name@, version@, release@]).unwrap(),
                ),
            },
    {
        let ghost parts = seq![origin@, name@, version@, release@];
        let origin = match Origin::new(origin) {
            Ok(part) => part,
            Err(e) => {
                proof {
                    lemma_first_invalid_at(parts, 0);
                }
                return Err(e);
            },
        };
        let name = match Name::new(name) {
            Ok(part) => part,
            Err(e) => {
                proof {
                    lemma_first_invalid_at(parts, 1);
                }
                return Err(e);
            },
        };
        let version = match Version::new(version) {
            Ok(part) => part,
            Err(e) => {
                proof {
                    lemma_first_invalid_at(parts, 2);
                }
                return Err(e);
            },
        };
        let release = match Release::new(release) {
            Ok(part) => part,
            Err(e) => {
                proof {
                    lemma_first_invalid_at(parts, 3);
                }
                return Err(e);
            },
        };
        Ok(ReleaseIdent::new(origin, name, version, release))
    }

    pub fn origin(&self) -> (r: &Origin)
        ensures
            r@ == self@[0],
    {
        &self.origin
    }

    pub fn name(&self) -> (r: &Name)
        ensures
            r@ == self@[1],
    {
        &self.name
    }

    pub fn version(&self) -> (r: &Version)
        ensures
            r@ == self@[2],
    {
        &self.version
    }

    pub fn release(&self) -> (r: &Release)
        ensures
            r@ == self@[3],
    {
        &self.release
    }

    /// Whether the release answers a request for `other`.
    pub fn satisfies(&self, other: &Ident) -> (r: bool)
        ensures
            r == satisfies_spec(self@, other@),
    {
        if self.origin != *other.origin() || self.name != *other.name() {
            return false;
        }
        match other.version() {
            Some(theirs) => {
                if self.version != *theirs {
                    return false;
                }
            },
            None => {},
        }
        match other.release() {
            Some(theirs) => {
                if self.release != *theirs {
                    return false;
                }
            },
            None => {},
        }
        true
    }

    pub fn iter(&self) -> (r: ReleaseIdentIter<'_>)
        ensures
            r.items() == self@,
            r.position() == 0,
    {
        ReleaseIdentIter { inner: self, pos: 0 }
    }

    /// The name of the archive that holds the package, built for the target
    /// that the host runs.
    pub fn archive_name(&self, active_target: &PackageTarget) -> (r: String)
        ensures
            r@ == archive_name_of(self@, *active_target),
    {
        self.archive_name_with_target(active_target)
    }

    /// The name of the archive that holds the package, built for `target`.
    pub fn archive_name_with_target(&self, target: &PackageTarget) -> (r: String)
        ensures
            r@ == archive_name_of(self@, *target),
    {
        let mut parts: Vec<String> = Vec::new();
        parts.push(self.origin.to_string());
        parts.push(self.name.to_string());
        parts.push(self.version.to_string());
        parts.push(self.release.to_string());
        parts.push(target.to_string());
        proof {
            assert(views(parts@) =~= self@.push(target_name(*target)));
        }
        let mut name = join_text(&parts, '-');
        name.append(".hart");
        name
    }

    /// Reads `origin/name/version/release`.
    pub fn from_str(value: &str) -> (r: Result<ReleaseIdent, Error>)
        ensures
            match r {
                Ok(ident) => parse_segments(value@, 4, 4) == Some(ident@) && ident.well_formed(),
                Err(e) => parse_segments(value@, 4, 4) is None && e@
                    == ErrorView::InvalidReleaseIdent(value@),
            },
    {
        let parts = split_text(value, SEPARATOR);
        proof {
            lemma_split_pieces(value@, '/');
        }
        if parts.len() == 4 && !parts[0].as_str().is_empty() && !parts[1].as_str().is_empty()
            && !parts[2].as_str().is_empty() && !parts[3].as_str().is_empty() {
            let ident = ReleaseIdent {
                origin: Origin(parts[0].clone()),
                name: Name(parts[1].clone()),
                version: Version(parts[2].clone()),
                release: Release(parts[3].clone()),
            };
            proof {
                let p = split(value@, '/');
                assert(p[0] == parts@[0]@ && p[1] == parts@[1]@ && p[2] == parts@[2]@ && p[3]
                    == parts@[3]@);
                assert(ident@ =~= p);
                assert(p[0].len() > 0 && p[1].len() > 0 && p[2].len() > 0 && p[3].len() > 0);
                lemma_parsed_is_valid(value@, 4, 4);
            }
            Ok(ident)
        } else {
            proof {
                let p = split(value@, '/');
                if p.len() == 4 {
                    assert(p[0] == parts@[0]@ && p[1] == parts@[1]@ && p[2] == parts@[2]@ && p[3]
                        == parts@[3]@);
                }
            }
            Err(Error::InvalidReleaseIdent(value.to_owned()))
        }
    }

    /// Writes `origin/name/version/release`.
    pub fn to_string(&self) -> (r: String)
        ensures
            r@ == print_segments(self@),
    {
        let mut parts: Vec<String> = Vec::new();
        parts.push(self.origin.to_string());
        parts.push(self.name.to_string());
        parts.push(self.version.to_string());
        parts.push(self.release.to_string());
        proof {
            assert(views(parts@) =~= self@);
        }
        join_text(&parts, SEPARATOR)
    }
}

/// Walks over the parts of an identifier, from the origin on.
pub struct ReleaseIdentIter<'a> {
    inner: &'a ReleaseIdent,
    pos: usize,
}

impl<'a> ReleaseIdentIter<'a> {
    /// The parts that the walk goes over.
    pub closed spec fn items(&self) -> Seq<Seq<char>> {
        self.inner@
    }

    /// How many parts the walk has handed out.
    pub closed spec fn position(&self) -> nat {
        self.pos as nat
    }

    /// The part at place `pos`, where the origin stands at place 1.
    pub fn item_for_pos(&self, pos: usize) -> (r: Option<&'a str>)
        ensures
            match r {
                Some(s) => 1 <= pos <= self.items().len() && s@ == self.items()[pos - 1],
                None => !(1 <= pos <= self.items().len()),
            },
    {
        match pos {
            1 => Some(self.inner.origin().as_str()),
            2 => Some(self.inner.name().as_str()),
            3 => Some(self.inner.version().as_str()),
            4 => Some(self.inner.release().as_str()),
            _ => None,
        }
    }

    /// Hands out the next part, as long as there is one.
    pub fn next(&mut self) -> (r: Option<&'a str>)
        ensures
            final(self).items() == old(self).items(),
            match r {
                Some(s) => old(self).position() < old(self).items().len() && s@ == old(
                    self,
                ).items()[old(self).position() as int] && final(self).position() == old(
                    self,
                ).position() + 1,
                None => old(self).position() >= old(self).items().len() && final(self).position()
                    == old(self).position(),
            },
    {
        if self.pos < 4 {
            self.pos += 1;
            self.item_for_pos(self.pos)
        } else {
            None
        }
    }
}

/// Walks over the parts of an identifier, from the origin on.
pub struct VersionIdentIter<'a> {
    inner: &'a VersionIdent,
    pos: usize,
}

impl<'a> VersionIdentIter<'a> {
    /// The parts that the walk goes over.
    pub closed spec fn items(&self) -> Seq<Seq<char>> {
        self.inner@
    }

    /// How many parts the walk has handed out.
    pub closed spec fn position(&self) -> nat {
        self.pos as nat
    }

    /// The part at place `pos`, where the origin stands at place 1.
    pub fn item_for_pos(&self, pos: usize) -> (r: Option<&'a str>)
        ensures
            match r {
                Some(s) => 1 <= pos <= self.items().len() && s@ == self.items()[pos - 1],
                None => !(1 <= pos <= self.items().len()),
            },
    {
        match pos {
            1 => Some(self.inner.origin().as_str()),
            2 => Some(self.inner.name().as_str()),
            3 => Some(self.inner.version().as_str()),
            _ => None,
        }
    }

    /// Hands out the next part, as long as there is one.
    pub fn next(&mut self) -> (r: Option<&'a str>)
        ensures
            final(self).items() == old(self).items(),
            match r {
                Some(s) => old(self).position() < old(self).items().len() && s@ == old(
                    self,
                ).items()[old(self).position() as int] && final(self).position() == old(
                    self,
                ).position() + 1,
                None => old(self).position() >= old(self).items().len() && final(self).position()
                    == old(self).position(),
            },
    {
        if self.pos < 3 {
            self.pos += 1;
            self.item_for_pos(self.pos)
        } else {
            None
        }
    }
}

/// Walks over the parts of an identifier, from the origin on.
pub struct NameIdentIter<'a> {
    inner: &'a NameIdent,
    pos: usize,
}

impl<'a> NameIdentIter<'a> {
    /// The parts that the walk goes over.
    pub closed spec fn items(&self) -> Seq<Seq<char>> {
        self.inner@
    }

    /// How many parts the walk has handed out.
    pub closed spec fn position(&self) -> nat {
        self.pos as nat
    }

    /// The part at place `pos`, where the origin stands at place 1.
    pub fn item_for_pos(&self, pos: usize) -> (r: Option<&'a str>)
        ensures
            match r {
                Some(s) => 1 <= pos <= self.items().len() && s@ == self.items()[pos - 1],
                None => !(1 <= pos <= self.items().len()),
            },
    {
        match pos {
            1 => Some(self.inner.origin().as_str()),
            2 => Some(self.inner.name().as_str()),
            _ => None,
        }
    }

    /// Hands out the next part, as long as there is one.
    pub fn next(&mut self) -> (r: Option<&'a str>)
        ensures
            final(self).items() == old(self).items(),
            match r {
                Some(s) => old(self).position() < old(self).items().len() && s@ == old(
                    self,
                ).items()[old(self).position() as int] && final(self).position() == old(
                    self,
                ).position() + 1,
                None => old(self).position() >= old(self).items().len() && final(self).position()
                    == old(self).position(),
            },
    {
        if self.pos < 2 {
            self.pos += 1;
            self.item_for_pos(self.pos)
        } else {
            None
        }
    }
}

/// Walks over the parts of an identifier, from the origin on.
pub struct IdentIter<'a> {
    inner: &'a Ident,
    pos: usize,
}

impl<'a> IdentIter<'a> {
    /// The parts that the walk goes over.
    pub closed spec fn items(&self) -> Seq<Seq<char>> {
        self.inner@
    }

    /// How many parts the walk has handed out.
    pub closed spec fn position(&self) -> nat {
        self.pos as nat
    }

    /// Hands out the next part, as long as there is one.
    pub fn next(&mut self) -> (r: Option<&'a str>)
        ensures
            final(self).items() == old(self).items(),
            match r {
                Some(s) => old(self).position() < old(self).items().len() && s@ == old(
                    self,
                ).items()[old(self).position() as int] && final(self).position() == old(
                    self,
                ).position() + 1,
                None => old(self).position() >= old(self).items().len() && final(self).position()
                    == old(self).position(),
            },
    {
        if self.pos < 4 {
            let item = match self.inner {
                Ident::Release(i) => i.iter().item_for_pos(self.pos + 1),
                Ident::Version(i) => i.iter().item_for_pos(self.pos + 1),
                Ident::Name(i) => i.iter().item_for_pos(self.pos + 1),
            };
            if item.is_some() {
                self.pos += 1;
            }
            item
        } else {
            None
        }
    }
}

/// The texts behind two optional strings.
pub open spec fn text_of(value: Option<&str>) -> Option<Seq<char>> {
    match value {
        Some(s) => Some(s@),
        None => None,
    }
}

/// The parts of the identifier with the given origin and name and, where
/// they are given, version and release. A release without a version makes
/// no identifier.
pub open spec fn ident_parts(
    origin: Seq<char>,
    name: Seq<char>,
    version: Option<Seq<char>>,
    release: Option<Seq<char>>,
) -> Option<Seq<Seq<char>>> {
    match (version, release) {
        (Some(v), Some(r)) => Some(seq![origin, name, v, r]),
        (Some(v), None) => Some(seq![origin, name, v]),
        (None, None) => Some(seq![origin, name]),
        (None, Some(_)) => None,
    }
}

impl Ident {
    /// Every part can stand as a part of an identifier: then the text of
    /// the identifier can be read again.
    pub open spec fn well_formed(&self) -> bool {
        valid_segments(self@)
    }

    pub fn origin(&self) -> (r: &Origin)
        ensures
            r@ == self@[0],
    {
        match self {
            Ident::Release(i) => i.origin(),
            Ident::Version(i) => i.origin(),
            Ident::Name(i) => i.origin(),
        }
    }

    pub fn name(&self) -> (r: &Name)
        ensures
            r@ == self@[1],
    {
        match self {
            Ident::Release(i) => i.name(),
            Ident::Version(i) => i.name(),
            Ident::Name(i) => i.name(),
        }
    }

    pub fn version(&self) -> (r: Option<&Version>)
        ensures
            match r {
                Some(v) => version_of(self@) == Some(v@),
                None => version_of(self@) is None,
            },
    {
        match self {
            Ident::Release(i) => Some(i.version()),
            Ident::Version(i) => Some(i.version()),
            Ident::Name(_) => None,
        }
    }

    pub fn release(&self) -> (r: Option<&Release>)
        ensures
            match r {
                Some(v) => release_of(self@) == Some(v@),
                None => release_of(self@) is None,
            },
    {
        match self {
            Ident::Release(i) => Some(i.release()),
            Ident::Version(_) | Ident::Name(_) => None,
        }
    }

    pub fn iter(&self) -> (r: IdentIter<'_>)
        ensures
            r.items() == self@,
            r.position() == 0,
    {
        IdentIter { inner: self, pos: 0 }
    }

    /// Builds the identifier from the texts of its parts. A release without
    /// a version is refused, and so is the first text that cannot stand as a
    /// part.
    pub fn new(origin: &str, name: &str, version: Option<&str>, release: Option<&str>) -> (r:
        Result<Ident, Error>)
        ensures
            match r {
                Ok(ident) => ident_parts(origin@, name@, text_of(version), text_of(release))
                    == Some(ident@) && ident.well_formed(),
                Err(e) => match ident_parts(origin@, name@, text_of(version), text_of(release)) {
                    Some(parts) => first_invalid(parts) is Some && e@
                        == ErrorView::InvalidPackageIdent(first_invalid(parts).unwrap()),
                    None => e@ == ErrorView::InvalidPackageIdent(
                        release_without_version(origin@, name@, text_of(release).unwrap()),
                    ),
                },
            },
    {
        match (version, release) {
            (Some(version), Some(release)) => {
                match ReleaseIdent::from_raw_parts(origin, name, version, release) {
                    Ok(ident) => Ok(Ident::Release(ident)),
                    Err(e) => Err(e),
                }
            },
            (Some(version), None) => {
                match VersionIdent::from_raw_parts(origin, name, version) {
                    Ok(ident) => Ok(Ident::Version(ident)),
                    Err(e) => Err(e),
                }
            },
            (None, None) => {
                match NameIdent::from_raw_parts(origin, name) {
                    Ok(ident) => Ok(Ident::Name(ident)),
                    Err(e) => Err(e),
                }
            },
            (None, Some(release)) => {
                let mut text = origin.to_owned();
                text.append("/");
                text.append(name);
                text.append("//");
                text.append(release);
                Err(Error::InvalidPackageIdent(text))
            },
        }
    }

    /// Whether a package with this identifier answers a request for `other`.
    pub fn satisfies(&self, other: &Ident) -> (r: bool)
        ensures
            r == satisfies_spec(self@, other@),
    {
        if *self.origin() != *other.origin() || *self.name() != *other.name() {
            return false;
        }
        match (self.version(), other.version()) {
            (Some(mine), Some(theirs)) => {
                if *mine != *theirs {
                    return false;
                }
            },
            _ => {},
        }
        match (self.release(), other.release()) {
            (Some(mine), Some(theirs)) => {
                if *mine != *theirs {
                    return false;
                }
            },
            _ => {},
        }
        true
    }

    /// Whether the identifier names a release.
    pub fn fully_qualified(&self) -> (r: bool)
        ensures
            r == (self@.len() == 4),
            r == (self is Release),
    {
        self.version().is_some() && self.release().is_some()
    }

    /// The name of the archive that holds the package, built for the target
    /// that the host runs. Only a release has an archive.
    pub fn archive_name(&self, active_target: &PackageTarget) -> (r: Result<String, Error>)
        ensures
            match r {
                Ok(name) => self@.len() == 4 && name@ == archive_name_of(self@, *active_target),
                Err(e) => self@.len() != 4 && e@ == ErrorView::FullyQualifiedPackageIdentRequired(
                    print_segments(self@),
                ),
            },
    {
        self.archive_name_with_target(active_target)
    }

    /// The name of the archive that holds the package, built for `target`.
    /// Only a release has an archive.
    pub fn archive_name_with_target(&self, target: &PackageTarget) -> (r: Result<String, Error>)
        ensures
            match r {
                Ok(name) => self@.len() == 4 && name@ == archive_name_of(self@, *target),
                Err(e) => self@.len() != 4 && e@ == ErrorView::FullyQualifiedPackageIdentRequired(
                    print_segments(self@),
                ),
            },
    {
        match self {
            Ident::Release(i) => Ok(i.archive_name_with_target(target)),
            _ => Err(Error::FullyQualifiedPackageIdentRequired(self.to_string())),
        }
    }

    /// The identifier of nothing: its origin and its name are empty, so it
    /// is not well formed, and its text cannot be read. It stands in where
    /// older callers expect an identifier before they know one.
    pub fn terribad_default() -> (r: Ident)
        ensures
            r@ == seq![Seq::<char>::empty(), Seq::<char>::empty()],
            !r.well_formed(),
    {
        let ident = Ident::Name(NameIdent { origin: Origin(String::new()), name: Name(String::new()) });
        proof {
            assert(!valid_segment(ident@[0]));
        }
        ident
    }

    /// Reads an identifier of two, three or four parts.
    pub fn from_str(value: &str) -> (r: Result<Ident, Error>)
        ensures
            match r {
                Ok(ident) => parse_ident(value@) == Some(ident@) && ident.well_formed(),
                Err(e) => parse_ident(value@) is None && e@ == ErrorView::InvalidPackageIdent(
                    value@,
                ),
            },
    {
        let parts = split_text(value, SEPARATOR);
        proof {
            lemma_split_pieces(value@, '/');
        }
        let ghost p = split(value@, '/');
        if parts.len() == 4 {
            match ReleaseIdent::from_str(value) {
                Ok(ident) => Ok(Ident::Release(ident)),
                Err(_) => Err(Error::InvalidPackageIdent(value.to_owned())),
            }
        } else if parts.len() == 3 {
            match VersionIdent::from_str(value) {
                Ok(ident) => Ok(Ident::Version(ident)),
                Err(_) => Err(Error::InvalidPackageIdent(value.to_owned())),
            }
        } else if parts.len() == 2 {
            match NameIdent::from_str(value) {
                Ok(ident) => Ok(Ident::Name(ident)),
                Err(_) => Err(Error::InvalidPackageIdent(value.to_owned())),
            }
        } else {
            Err(Error::InvalidPackageIdent(value.to_owned()))
        }
    }

    /// Writes the parts, joined by `/`.
    pub fn to_string(&self) -> (r: String)
        ensures
            r@ == print_segments(self@),
    {
        match self {
            Ident::Release(i) => i.to_string(),
            Ident::Version(i) => i.to_string(),
            Ident::Name(i) => i.to_string(),
        }
    }
}

/// Reading the text of a well-formed identifier gives the identifier back.
pub proof fn lemma_parse_print_round_trip(x: Ident)
    requires
        x.well_formed(),
    ensures
        parse_ident(print_segments(x@)) == Some(x@),
{
    lemma_parse_print_segments(x@, 2, 4);
}

/// A fully-qualified identifier answers a request for itself.
pub proof fn lemma_satisfies_reflexive(x: Ident)
    ensures
        satisfies_spec(x@, x@),
{
}

/// What can name a package: origin and name, and perhaps version and release.
pub trait Identifiable {
    /// The parts of the identifier, from the origin on.
    spec fn parts(&self) -> Seq<Seq<char>>;

    fn origin(&self) -> (r: &str)
        ensures
            r@ == self.parts()[0],
    ;

    fn name(&self) -> (r: &str)
        ensures
            r@ == self.parts()[1],
    ;

    fn version(&self) -> (r: Option<&str>)
        ensures
            text_of(r) == version_of(self.parts()),
    ;

    fn release(&self) -> (r: Option<&str>)
        ensures
            text_of(r) == release_of(self.parts()),
    ;

    fn fully_qualified(&self) -> (r: bool)
        ensures
            r == (self.parts().len() >= 4),
    {
        self.version().is_some() && self.release().is_some()
    }
}

impl Identifiable for Ident {
    open spec fn parts(&self) -> Seq<Seq<char>> {
        self@
    }

    fn origin(&self) -> (r: &str) {
        self.origin().as_str()
    }

    fn name(&self) -> (r: &str) {
        self.name().as_str()
    }

    fn version(&self) -> (r: Option<&str>) {
        match self.version() {
            Some(v) => Some(v.as_str()),
            None => None,
        }
    }

    fn release(&self) -> (r: Option<&str>) {
        match self.release() {
            Some(v) => Some(v.as_str()),
            None => None,
        }
    }
}

/// A character that the name of an origin may begin with: a small letter
/// or a digit.
pub open spec fn origin_start(c: char) -> bool {
    ('a' <= c && c <= 'z') || ('0' <= c && c <= '9')
}

/// A character that may stand in the name of an origin.
pub open spec fn origin_char(c: char) -> bool {
    origin_start(c) || c == '_' || c == '-'
}

/// The names that an origin may have: at most 255 small letters, digits,
/// `_` and `-`, the first of them a letter or a digit.
pub open spec fn valid_origin_name(name: Seq<char>) -> bool {
    &&& 0 < name.len() <= 255
    &&& origin_start(name[0])
    &&& forall|i: int| 0 <= i < name.len() ==> origin_char(#[trigger] name[i])
}

fn starts_origin(c: char) -> (r: bool)
    ensures
        r == origin_start(c),
{
    (c >= 'a' && c <= 'z') || (c >= '0' && c <= '9')
}

/// Is the string a valid origin name?
pub fn is_valid_origin_name(origin: &str) -> (r: bool)
    ensures
        r == valid_origin_name(origin@),
{
    let v = crate::text::chars_of(origin);
    if v.len() == 0 || v.len() > 255 {
        return false;
    }
    if !starts_origin(v[0]) {
        return false;
    }
    let mut i: usize = 1;
    while i < v.len()
        invariant
            1 <= i <= v.len(),
            v@ == origin@,
            origin_start(v@[0]),
            forall|k: int| 0 <= k < i ==> origin_char(#[trigger] v@[k]),
        decreases v.len() - i,
    {
        let c = v[i];
        if !(starts_origin(c) || c == '_' || c == '-') {
            return false;
        }
        i += 1;
    }
    true
}

} // verus!

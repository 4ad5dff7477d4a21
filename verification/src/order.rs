//! The orders of identifiers.
//!
//! There are two. The partial order says which of two identifiers of one
//! package names the newer or the more exact one, and leaves identifiers of
//! different packages apart. The total order puts any two identifiers in a
//! row, for sorting. Neither looks at the origin.

use core::cmp::Ordering;
use vstd::prelude::*;
use vstd::std_specs::cmp::PartialOrdSpecImpl;

use crate::ident::{release_of, version_of, Ident, ReleaseIdent};
use crate::version::{
    chained, lemma_text_order_chained, lemma_text_order_reversed, lemma_version_order_chained,
    lemma_version_order_reversed, numeric, order_texts, reversed, text_order, version_order,
    version_sort,
};

verus! {

/// The order of two versions, for sorting: where they cannot be compared as
/// versions, they are compared as texts.
pub open spec fn version_or_text_order(a: Seq<char>, b: Seq<char>) -> Ordering {
    match version_order(a, b) {
        Ok(decided) => decided,
        Err(_) => text_order(a, b),
    }
}

/// The order of two releases of a package: the versions decide, and between
/// equal versions the releases, as texts.
pub open spec fn release_order(a: Seq<Seq<char>>, b: Seq<Seq<char>>) -> Ordering {
    match version_or_text_order(a[2], b[2]) {
        Ordering::Equal => text_order(a[3], b[3]),
        decided => decided,
    }
}

/// The partial order of identifiers.
///
/// Identifiers with different names are not compared. Of two identifiers
/// with the same name the one with more parts is the greater; two releases
/// go by `release_order`; and two identifiers that both lack a release are
/// not compared.
pub open spec fn partial_order(a: Seq<Seq<char>>, b: Seq<Seq<char>>) -> Option<Ordering> {
    if a[1] != b[1] {
        None
    } else if a.len() >= 4 && b.len() >= 4 {
        Some(release_order(a, b))
    } else if a.len() == b.len() {
        None
    } else if a.len() < b.len() {
        Some(Ordering::Less)
    } else {
        Some(Ordering::Greater)
    }
}

/// The order of two parts that may be missing: a missing part comes first.
pub open spec fn optional_order(a: Option<Seq<char>>, b: Option<Seq<char>>) -> Ordering {
    match (a, b) {
        (None, None) => Ordering::Equal,
        (None, Some(_)) => Ordering::Less,
        (Some(_), None) => Ordering::Greater,
        (Some(x), Some(y)) => text_order(x, y),
    }
}

/// The total order of identifiers.
///
/// Different names go by the order of the dictionary. With the same name
/// the versions decide, then the releases as texts; an identifier that
/// lacks a version or a release comes before one that has it.
pub open spec fn total_order(a: Seq<Seq<char>>, b: Seq<Seq<char>>) -> Ordering {
    if a[1] != b[1] {
        text_order(a[1], b[1])
    } else {
        match (version_of(a), version_of(b)) {
            (None, None) => Ordering::Equal,
            (None, Some(_)) => Ordering::Less,
            (Some(_), None) => Ordering::Greater,
            (Some(x), Some(y)) => match version_or_text_order(x, y) {
                Ordering::Equal => optional_order(release_of(a), release_of(b)),
                decided => decided,
            },
        }
    }
}

/// `a` is no greater than `b` in the partial order.
pub open spec fn at_most(a: Seq<Seq<char>>, b: Seq<Seq<char>>) -> bool {
    partial_order(a, b) == Some(Ordering::Less) || partial_order(a, b) == Some(Ordering::Equal)
}

/// The order of two versions, for sorting.
pub fn order_versions(a: &str, b: &str) -> (r: Ordering)
    ensures
        r == version_or_text_order(a@, b@),
{
    match version_sort(a, b) {
        Ok(decided) => decided,
        Err(_) => order_texts(a, b),
    }
}

impl PartialOrd for ReleaseIdent {
    /// The order of two releases: the versions decide, and between equal
    /// versions the releases. Names and origins are not looked at.
    fn partial_cmp(&self, other: &ReleaseIdent) -> (r: Option<Ordering>) {
        match order_versions(self.version().as_str(), other.version().as_str()) {
            Ordering::Equal => Some(
                order_texts(self.release().as_str(), other.release().as_str()),
            ),
            decided => Some(decided),
        }
    }
}

impl PartialOrdSpecImpl for ReleaseIdent {
    open spec fn obeys_partial_cmp_spec() -> bool {
        true
    }

    open spec fn partial_cmp_spec(&self, other: &ReleaseIdent) -> Option<Ordering> {
        Some(release_order(self@, other@))
    }
}

impl PartialOrd for Ident {
    /// The partial order of identifiers.
    fn partial_cmp(&self, other: &Ident) -> (r: Option<Ordering>) {
        if *self.name() != *other.name() {
            return None;
        }
        match (self, other) {
            (Ident::Name(_), Ident::Name(_)) | (Ident::Version(_), Ident::Version(_)) => None,
            (Ident::Name(_), Ident::Version(_))
            | (Ident::Name(_), Ident::Release(_))
            | (Ident::Version(_), Ident::Release(_)) => Some(Ordering::Less),
            (Ident::Version(_), Ident::Name(_))
            | (Ident::Release(_), Ident::Name(_))
            | (Ident::Release(_), Ident::Version(_)) => Some(Ordering::Greater),
            (Ident::Release(mine), Ident::Release(theirs)) => mine.partial_cmp(theirs),
        }
    }
}

impl PartialOrdSpecImpl for Ident {
    open spec fn obeys_partial_cmp_spec() -> bool {
        true
    }

    open spec fn partial_cmp_spec(&self, other: &Ident) -> Option<Ordering> {
        partial_order(self@, other@)
    }
}

impl Ident {
    /// The total order of identifiers.
    pub fn cmp(&self, other: &Ident) -> (r: Ordering)
        ensures
            r == total_order(self@, other@),
    {
        if *self.name() != *other.name() {
            return order_texts(self.name().as_str(), other.name().as_str());
        }
        match (self.version(), other.version()) {
            (None, None) => Ordering::Equal,
            (None, Some(_)) => Ordering::Less,
            (Some(_), None) => Ordering::Greater,
            (Some(mine), Some(theirs)) => match order_versions(mine.as_str(), theirs.as_str()) {
                Ordering::Equal => match (self.release(), other.release()) {
                    (None, None) => Ordering::Equal,
                    (None, Some(_)) => Ordering::Less,
                    (Some(_), None) => Ordering::Greater,
                    (Some(mine), Some(theirs)) => order_texts(mine.as_str(), theirs.as_str()),
                },
                decided => decided,
            },
        }
    }
}

/// Two versions taken the other way round are in the reversed order.
pub proof fn lemma_version_or_text_order_reversed(a: Seq<char>, b: Seq<char>)
    ensures
        version_or_text_order(b, a) == reversed(version_or_text_order(a, b)),
{
    lemma_version_order_reversed(a, b);
    lemma_text_order_reversed(a, b);
}

/// `a` comes before `b` in the total order.
pub open spec fn comes_before(a: Seq<Seq<char>>, b: Seq<Seq<char>>) -> bool {
    total_order(a, b) == Ordering::Less
}

/// The total order holds `a` and `b` equal.
pub open spec fn holds_equal(a: Seq<Seq<char>>, b: Seq<Seq<char>>) -> bool {
    total_order(a, b) == Ordering::Equal
}

/// Of two identifiers exactly one of three holds in the total order: the
/// first comes before the second, the order holds them equal, or the second
/// comes before the first. Taken the other way round, two identifiers are
/// in the reversed order.
pub proof fn lemma_total_order_reversed(a: Ident, b: Ident)
    ensures
        total_order(b@, a@) == reversed(total_order(a@, b@)),
        comes_before(a@, b@) || holds_equal(a@, b@) || comes_before(b@, a@),
        !(comes_before(a@, b@) && holds_equal(a@, b@)),
        !(comes_before(a@, b@) && comes_before(b@, a@)),
        !(holds_equal(a@, b@) && comes_before(b@, a@)),
        holds_equal(a@, b@) == holds_equal(b@, a@),
{
    lemma_text_order_reversed(a@[1], b@[1]);
    match (version_of(a@), version_of(b@)) {
        (Some(x), Some(y)) => {
            lemma_version_or_text_order_reversed(x, y);
            match (release_of(a@), release_of(b@)) {
                (Some(p), Some(q)) => {
                    lemma_text_order_reversed(p, q);
                },
                _ => {},
            }
        },
        _ => {},
    }
}

/// Two releases taken the other way round are in the reversed order.
pub proof fn lemma_release_order_reversed(a: Seq<Seq<char>>, b: Seq<Seq<char>>)
    ensures
        release_order(b, a) == reversed(release_order(a, b)),
{
    lemma_version_or_text_order_reversed(a[2], b[2]);
    lemma_text_order_reversed(a[3], b[3]);
}

/// Between two releases with the same name the total order and the partial
/// order agree.
pub proof fn lemma_orders_agree(a: Ident, b: Ident)
    requires
        a@.len() == 4,
        b@.len() == 4,
        a@[1] == b@[1],
    ensures
        partial_order(a@, b@) == Some(total_order(a@, b@)),
{
}

/// The order of releases is transitive, among releases whose versions are
/// made of numbers.
pub proof fn lemma_release_order_chained(
    a: Seq<Seq<char>>,
    b: Seq<Seq<char>>,
    c: Seq<Seq<char>>,
)
    requires
        numeric(a[2]),
        numeric(b[2]),
        numeric(c[2]),
    ensures
        chained(release_order(a, b), release_order(b, c), release_order(a, c)),
{
    lemma_version_order_chained(a[2], b[2], c[2]);
    lemma_text_order_chained(a[3], b[3], c[3]);
}

} // verus!

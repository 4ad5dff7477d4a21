//! The order of versions.
//!
//! A version is some numbers with dots between them, and perhaps an
//! extension behind them: `1.0.0`, `1.0.0-alpha1`. The numbers decide first,
//! one after the other; after them a version without an extension is the
//! greater, and two extensions go by the order of the dictionary.

use core::cmp::Ordering;
use vstd::prelude::*;

use crate::error::{Error, ErrorView};
use crate::text::{
    chars_of, lemma_lex_asymmetric, lemma_lex_total, lemma_lex_transitive, lex_lt, parse_decimal,
    parse_number, split, split_text, string_of, text_eq, text_lt, views,
};

verus! {

/// The pattern that takes a version apart: the numbers and dots at its
/// beginning are the first group, whatever follows them is the second.
pub const VERSION_PATTERN: &'static str = "^([\\d.]+)(.+)?$";

/// Why `regex::Regex::new` refuses a pattern, in the words of its error;
/// `None` where it accepts the pattern.
pub uninterp spec fn regex_refusal(pattern: Seq<char>) -> Option<Seq<char>>;

/// What `regex::Regex::captures` finds in `text` for a pattern that
/// `regex::Regex::new` accepts: `None` where the pattern matches nowhere,
/// else the groups of the first match in their order, the whole match as
/// group 0, each with the text it matched, or `None` where it took no part.
pub uninterp spec fn regex_captures(pattern: Seq<char>, text: Seq<char>) -> Option<
    Seq<Option<Seq<char>>>,
>;

/// The texts behind the groups that a match handed out.
pub open spec fn groups_of(found: Option<Vec<Option<String>>>) -> Option<Seq<Option<Seq<char>>>> {
    match found {
        Some(groups) => Some(
            groups@.map_values(
                |g: Option<String>|
                    match g {
                        Some(s) => Some(s@),
                        None => None,
                    },
            ),
        ),
        None => None,
    }
}

/// Compiles `pattern` with `regex::Regex::new` and searches `text` with
/// `regex::Regex::captures`. A pattern that is refused gives the words of
/// the refusal; otherwise the result is what `captures` found, the groups
/// as `regex::Captures::iter` hands them out, each copied into a string of
/// its own. The two results are given the names `regex_refusal` and
/// `regex_captures`, and nothing more is stated of them.
#[verifier::external_body]
fn captures(pattern: &str, text: &str) -> (r: Result<Option<Vec<Option<String>>>, String>)
    ensures
        match r {
            Ok(found) => regex_refusal(pattern@) is None && groups_of(found) == regex_captures(
                pattern@,
                text@,
            ),
            Err(words) => regex_refusal(pattern@) == Some(words@),
        },
{
    match regex::Regex::new(pattern) {
        Ok(re) => Ok(
            re.captures(text).map(
                |caps| caps.iter().map(|group| group.map(|m| m.as_str().to_owned())).collect(),
            ),
        ),
        Err(e) => Err(e.to_string()),
    }
}

/// The group at place `i`, where there is one and it took part.
pub open spec fn group(groups: Seq<Option<Seq<char>>>, i: int) -> Option<Seq<char>> {
    if 0 <= i < groups.len() {
        groups[i]
    } else {
        None
    }
}

/// An extension without the `-` that introduces it.
pub open spec fn strip_dash(extension: Seq<char>) -> Seq<char> {
    if extension.len() > 0 && extension[0] == '-' {
        extension.skip(1)
    } else {
        extension
    }
}

/// A version taken apart, from what the pattern found in it: the texts
/// between the dots of the first group, and the second group without its
/// `-`. A version in which the pattern found no numbers is malformed.
pub open spec fn split_found(version: Seq<char>, found: Option<Seq<Option<Seq<char>>>>) -> Result<
    (Seq<Seq<char>>, Option<Seq<char>>),
    ErrorView,
> {
    match found {
        Some(groups) => match group(groups, 1) {
            Some(numbers) => Ok(
                (
                    split(numbers, '.'),
                    match group(groups, 2) {
                        Some(extension) => Some(strip_dash(extension)),
                        None => None,
                    },
                ),
            ),
            None => Err(ErrorView::InvalidPackageIdent(version)),
        },
        None => Err(ErrorView::InvalidPackageIdent(version)),
    }
}

/// A version taken apart.
pub open spec fn version_parts(version: Seq<char>) -> Result<
    (Seq<Seq<char>>, Option<Seq<char>>),
    ErrorView,
> {
    match regex_refusal(VERSION_PATTERN@) {
        Some(words) => Err(ErrorView::RegexParse(words)),
        None => split_found(version, regex_captures(VERSION_PATTERN@, version)),
    }
}

/// The number at place `i` of a version; a version that has run out of
/// numbers goes on with zeros. `None` where the text at that place is no
/// number that fits in 64 bits.
pub open spec fn number_at(numbers: Seq<Seq<char>>, i: int) -> Option<u64> {
    if 0 <= i < numbers.len() {
        parse_decimal(numbers[i])
    } else {
        Some(0)
    }
}

/// The order of two texts: that of the dictionary.
pub open spec fn text_order(a: Seq<char>, b: Seq<char>) -> Ordering {
    if a == b {
        Ordering::Equal
    } else if lex_lt(a, b) {
        Ordering::Less
    } else {
        Ordering::Greater
    }
}

/// The order that the numbers of two versions give from place `i` on: the
/// first place at which they differ decides. A text that is no number, met
/// before the numbers differ, is an error, `a`'s before `b`'s.
pub open spec fn numbers_order(a: Seq<Seq<char>>, b: Seq<Seq<char>>, i: int) -> Result<
    Ordering,
    ErrorView,
>
    decreases a.len() + b.len() - i,
{
    if i < 0 || (i >= a.len() && i >= b.len()) {
        Ok(Ordering::Equal)
    } else {
        match number_at(a, i) {
            None => Err(ErrorView::ParseIntError(a[i])),
            Some(x) => match number_at(b, i) {
                None => Err(ErrorView::ParseIntError(b[i])),
                Some(y) => if x > y {
                    Ok(Ordering::Greater)
                } else if x < y {
                    Ok(Ordering::Less)
                } else {
                    numbers_order(a, b, i + 1)
                },
            },
        }
    }
}

/// The order of two extensions: a version without one is greater than a
/// version with one, and two extensions go by the dictionary.
pub open spec fn extension_order(a: Option<Seq<char>>, b: Option<Seq<char>>) -> Ordering {
    match (a, b) {
        (Some(_), None) => Ordering::Less,
        (None, Some(_)) => Ordering::Greater,
        (None, None) => Ordering::Equal,
        (Some(x), Some(y)) => text_order(x, y),
    }
}

/// The order of two versions that were taken apart.
pub open spec fn parts_order(
    a_numbers: Seq<Seq<char>>,
    a_extension: Option<Seq<char>>,
    b_numbers: Seq<Seq<char>>,
    b_extension: Option<Seq<char>>,
) -> Result<Ordering, ErrorView> {
    match numbers_order(a_numbers, b_numbers, 0) {
        Ok(Ordering::Equal) => Ok(extension_order(a_extension, b_extension)),
        decided => decided,
    }
}

/// The order of two versions. A version that cannot be taken apart is an
/// error, `a` before `b`.
pub open spec fn version_order(a: Seq<char>, b: Seq<char>) -> Result<Ordering, ErrorView> {
    match version_parts(a) {
        Err(e) => Err(e),
        Ok((a_numbers, a_extension)) => match version_parts(b) {
            Err(e) => Err(e),
            Ok((b_numbers, b_extension)) => parts_order(
                a_numbers,
                a_extension,
                b_numbers,
                b_extension,
            ),
        },
    }
}

/// A result with the error as what it holds.
pub open spec fn order_view(r: Result<Ordering, Error>) -> Result<Ordering, ErrorView> {
    match r {
        Ok(o) => Ok(o),
        Err(e) => Err(e@),
    }
}

/// The text behind an optional string.
pub open spec fn text_view(value: Option<String>) -> Option<Seq<char>> {
    match value {
        Some(s) => Some(s@),
        None => None,
    }
}

/// A version taken apart, with the error as what it holds.
pub open spec fn parts_view(r: Result<(Vec<String>, Option<String>), Error>) -> Result<
    (Seq<Seq<char>>, Option<Seq<char>>),
    ErrorView,
> {
    match r {
        Ok((numbers, extension)) => Ok((views(numbers@), text_view(extension))),
        Err(e) => Err(e@),
    }
}

/// The order of two texts: that of the dictionary.
pub fn order_texts(a: &str, b: &str) -> (r: Ordering)
    ensures
        r == text_order(a@, b@),
{
    if text_eq(a, b) {
        Ordering::Equal
    } else if text_lt(a, b) {
        Ordering::Less
    } else {
        Ordering::Greater
    }
}

fn without_dash(extension: &str) -> (r: String)
    ensures
        r@ == strip_dash(extension@),
{
    let v = chars_of(extension);
    if v.len() > 0 && v[0] == '-' {
        string_of(&v, 1, v.len())
    } else {
        string_of(&v, 0, v.len())
    }
}

/// Takes a version apart, from what the pattern for versions found in it.
pub fn split_captured(version: &str, found: &Option<Vec<Option<String>>>) -> (r: Result<
    (Vec<String>, Option<String>),
    Error,
>)
    ensures
        parts_view(r) == split_found(version@, groups_of(*found)),
{
    let groups = match found {
        Some(groups) => groups,
        None => {
            return Err(Error::InvalidPackageIdent(version.to_owned()));
        },
    };
    if groups.len() < 2 {
        return Err(Error::InvalidPackageIdent(version.to_owned()));
    }
    let numbers = match &groups[1] {
        Some(numbers) => split_text(numbers.as_str(), '.'),
        None => {
            return Err(Error::InvalidPackageIdent(version.to_owned()));
        },
    };
    let extension = if groups.len() < 3 {
        None
    } else {
        match &groups[2] {
            Some(extension) => Some(without_dash(extension.as_str())),
            None => None,
        }
    };
    Ok((numbers, extension))
}

/// Takes a version apart: the texts between the dots of its numbers, and
/// its extension.
pub fn split_version(version: &str) -> (r: Result<(Vec<String>, Option<String>), Error>)
    ensures
        parts_view(r) == version_parts(version@),
{
    match captures(VERSION_PATTERN, version) {
        Ok(found) => split_captured(version, &found),
        Err(words) => Err(Error::RegexParse(words)),
    }
}

fn number_of(numbers: &Vec<String>, i: usize) -> (r: Result<u64, Error>)
    ensures
        match r {
            Ok(x) => number_at(views(numbers@), i as int) == Some(x),
            Err(e) => number_at(views(numbers@), i as int) is None && e@
                == ErrorView::ParseIntError(views(numbers@)[i as int]),
        },
{
    if i < numbers.len() {
        match parse_number(numbers[i].as_str()) {
            Some(x) => Ok(x),
            None => Err(Error::ParseIntError(numbers[i].clone())),
        }
    } else {
        Ok(0)
    }
}

/// The order of two versions that were taken apart.
pub fn order_parts(
    a_numbers: &Vec<String>,
    a_extension: &Option<String>,
    b_numbers: &Vec<String>,
    b_extension: &Option<String>,
) -> (r: Result<Ordering, Error>)
    ensures
        order_view(r) == parts_order(
            views(a_numbers@),
            text_view(*a_extension),
            views(b_numbers@),
            text_view(*b_extension),
        ),
{
    let ghost a = views(a_numbers@);
    let ghost b = views(b_numbers@);
    let mut i: usize = 0;
    let ghost mut place: int = 0;
    while i < a_numbers.len() || i < b_numbers.len()
        invariant
            place == i,
            a == views(a_numbers@),
            b == views(b_numbers@),
            numbers_order(a, b, 0) == numbers_order(a, b, place),
        decreases a_numbers.len() + b_numbers.len() - i,
    {
        let x = match number_of(a_numbers, i) {
            Ok(x) => x,
            Err(e) => {
                return Err(e);
            },
        };
        let y = match number_of(b_numbers, i) {
            Ok(y) => y,
            Err(e) => {
                return Err(e);
            },
        };
        if x > y {
            return Ok(Ordering::Greater);
        }
        if x < y {
            return Ok(Ordering::Less);
        }
        i += 1;
        proof {
            place = place + 1;
        }
    }
    let decided = match (a_extension, b_extension) {
        (Some(_), None) => Ordering::Less,
        (None, Some(_)) => Ordering::Greater,
        (None, None) => Ordering::Equal,
        (Some(x), Some(y)) => order_texts(x.as_str(), y.as_str()),
    };
    Ok(decided)
}

/// Sorts two versions.
///
/// The numbers at the beginning of each are compared one after the other,
/// and a version that has run out of numbers goes on with zeros: `1.2` and
/// `1.2.0` are equal. Where the numbers are the same, a version without an
/// extension is greater than one with an extension, and two extensions go by
/// the order of the dictionary. A version without numbers at its beginning,
/// or with a number that does not fit in 64 bits, is an error.
pub fn version_sort(a_version: &str, b_version: &str) -> (r: Result<Ordering, Error>)
    ensures
        order_view(r) == version_order(a_version@, b_version@),
{
    let (a_numbers, a_extension) = match split_version(a_version) {
        Ok(parts) => parts,
        Err(e) => {
            return Err(e);
        },
    };
    let (b_numbers, b_extension) = match split_version(b_version) {
        Ok(parts) => parts,
        Err(e) => {
            return Err(e);
        },
    };
    order_parts(&a_numbers, &a_extension, &b_numbers, &b_extension)
}

/// The order the other way round.
pub open spec fn reversed(o: Ordering) -> Ordering {
    match o {
        Ordering::Less => Ordering::Greater,
        Ordering::Equal => Ordering::Equal,
        Ordering::Greater => Ordering::Less,
    }
}

/// Two texts taken the other way round are in the reversed order.
pub proof fn lemma_text_order_reversed(a: Seq<char>, b: Seq<char>)
    ensures
        text_order(b, a) == reversed(text_order(a, b)),
{
    lemma_lex_asymmetric(a, b);
    lemma_lex_asymmetric(b, a);
    lemma_lex_total(a, b);
}

/// The numbers of two versions taken the other way round are in the
/// reversed order, and fail together.
pub proof fn lemma_numbers_order_reversed(a: Seq<Seq<char>>, b: Seq<Seq<char>>, i: int)
    ensures
        numbers_order(a, b, i) is Ok <==> numbers_order(b, a, i) is Ok,
        numbers_order(a, b, i) matches Ok(o) ==> numbers_order(b, a, i) == Ok::<
            Ordering,
            ErrorView,
        >(reversed(o)),
    decreases a.len() + b.len() - i,
{
    if i < 0 || (i >= a.len() && i >= b.len()) {
    } else {
        match (number_at(a, i), number_at(b, i)) {
            (Some(x), Some(y)) => {
                if x == y {
                    lemma_numbers_order_reversed(a, b, i + 1);
                }
            },
            _ => {},
        }
    }
}

/// Two versions taken the other way round are in the reversed order, and
/// fail together.
pub proof fn lemma_version_order_reversed(a: Seq<char>, b: Seq<char>)
    ensures
        version_order(a, b) is Ok <==> version_order(b, a) is Ok,
        version_order(a, b) matches Ok(o) ==> version_order(b, a) == Ok::<Ordering, ErrorView>(
            reversed(o),
        ),
{
    match (version_parts(a), version_parts(b)) {
        (Ok((a_numbers, a_extension)), Ok((b_numbers, b_extension))) => {
            lemma_numbers_order_reversed(a_numbers, b_numbers, 0);
            match (a_extension, b_extension) {
                (Some(x), Some(y)) => {
                    lemma_text_order_reversed(x, y);
                },
                _ => {},
            }
        },
        _ => {},
    }
}

/// Three comparisons that fit together: where the first is no greater than
/// the second and the second no greater than the third, the first is no
/// greater than the third, and equal to it only where all three are equal.
pub open spec fn chained(ab: Ordering, bc: Ordering, ac: Ordering) -> bool {
    ab != Ordering::Greater && bc != Ordering::Greater ==> ac != Ordering::Greater && (ac
        == Ordering::Equal ==> ab == Ordering::Equal && bc == Ordering::Equal)
}

/// The order of texts is transitive.
pub proof fn lemma_text_order_chained(a: Seq<char>, b: Seq<char>, c: Seq<char>)
    ensures
        chained(text_order(a, b), text_order(b, c), text_order(a, c)),
{
    lemma_lex_asymmetric(a, b);
    lemma_lex_asymmetric(b, c);
    lemma_lex_asymmetric(a, c);
    lemma_lex_asymmetric(c, b);
    lemma_lex_total(a, c);
    if lex_lt(a, b) && lex_lt(b, c) {
        lemma_lex_transitive(a, b, c);
    }
}

/// The order of extensions is transitive.
pub proof fn lemma_extension_order_chained(
    a: Option<Seq<char>>,
    b: Option<Seq<char>>,
    c: Option<Seq<char>>,
)
    ensures
        chained(extension_order(a, b), extension_order(b, c), extension_order(a, c)),
{
    match (a, b, c) {
        (Some(x), Some(y), Some(z)) => {
            lemma_text_order_chained(x, y, z);
        },
        _ => {},
    }
}

/// Every text is a number that fits in 64 bits.
pub open spec fn all_numbers(numbers: Seq<Seq<char>>) -> bool {
    forall|i: int| 0 <= i < numbers.len() ==> parse_decimal(#[trigger] numbers[i]) is Some
}

/// The order of the numbers of versions is transitive, where all of them
/// can be read.
pub proof fn lemma_numbers_order_chained(
    a: Seq<Seq<char>>,
    b: Seq<Seq<char>>,
    c: Seq<Seq<char>>,
    i: int,
)
    requires
        all_numbers(a),
        all_numbers(b),
        all_numbers(c),
        0 <= i,
    ensures
        numbers_order(a, b, i) is Ok,
        numbers_order(b, c, i) is Ok,
        numbers_order(a, c, i) is Ok,
        chained(
            numbers_order(a, b, i)->Ok_0,
            numbers_order(b, c, i)->Ok_0,
            numbers_order(a, c, i)->Ok_0,
        ),
    decreases a.len() + b.len() + c.len() - i,
{
    if i >= a.len() && i >= b.len() && i >= c.len() {
    } else {
        lemma_numbers_order_chained(a, b, c, i + 1);
        if i < a.len() {
            assert(parse_decimal(a[i]) is Some);
        }
        if i < b.len() {
            assert(parse_decimal(b[i]) is Some);
        }
        if i < c.len() {
            assert(parse_decimal(c[i]) is Some);
        }
        assert(numbers_order(a, b, i + 1) == Ok::<Ordering, ErrorView>(Ordering::Equal) || !(i
            >= a.len() && i >= b.len())) by {
            if i >= a.len() && i >= b.len() {
                assert(numbers_order(a, b, i + 1) == Ok::<Ordering, ErrorView>(Ordering::Equal));
            }
        }
        assert(numbers_order(b, c, i + 1) == Ok::<Ordering, ErrorView>(Ordering::Equal) || !(i
            >= b.len() && i >= c.len())) by {
            if i >= b.len() && i >= c.len() {
                assert(numbers_order(b, c, i + 1) == Ok::<Ordering, ErrorView>(Ordering::Equal));
            }
        }
        assert(numbers_order(a, c, i + 1) == Ok::<Ordering, ErrorView>(Ordering::Equal) || !(i
            >= a.len() && i >= c.len())) by {
            if i >= a.len() && i >= c.len() {
                assert(numbers_order(a, c, i + 1) == Ok::<Ordering, ErrorView>(Ordering::Equal));
            }
        }
    }
}

/// A version that can be taken apart, and whose numbers can all be read.
pub open spec fn numeric(version: Seq<char>) -> bool {
    version_parts(version) matches Ok((numbers, _)) && all_numbers(numbers)
}

/// The order of versions is transitive, among versions that are made of
/// numbers.
pub proof fn lemma_version_order_chained(a: Seq<char>, b: Seq<char>, c: Seq<char>)
    requires
        numeric(a),
        numeric(b),
        numeric(c),
    ensures
        version_order(a, b) is Ok,
        version_order(b, c) is Ok,
        version_order(a, c) is Ok,
        chained(version_order(a, b)->Ok_0, version_order(b, c)->Ok_0, version_order(a, c)->Ok_0),
{
    let (a_numbers, a_extension) = version_parts(a)->Ok_0;
    let (b_numbers, b_extension) = version_parts(b)->Ok_0;
    let (c_numbers, c_extension) = version_parts(c)->Ok_0;
    lemma_numbers_order_chained(a_numbers, b_numbers, c_numbers, 0);
    lemma_extension_order_chained(a_extension, b_extension, c_extension);
}

} // verus!

//! The entries of a `PATH` value.
//!
//! A `PATH` value is one line of paths with a separator between them, `:` on
//! most hosts.

use vstd::prelude::*;

use crate::each::model;
use crate::error::{Error, ErrorView};
use crate::text::{
    contains_char, join, join_text, lemma_split_pieces, split, split_text, starts_with, text_eq,
    views,
};

verus! {

/// The step that passes over what is no name of a directory or a file:
/// the empty text between two `/`, and `.`, which stands for the directory
/// it lies in.
pub open spec fn name_step() -> spec_fn(Seq<char>) -> Option<Seq<char>> {
    |piece: Seq<char>|
        if piece.len() == 0 || piece == "."@ {
            None
        } else {
            Some(piece)
        }
}

/// The parts of a path, which `/` sets apart.
///
/// A path that begins with `/` has the part `/` first, and one that begins
/// with `.` has the part `.` first. Then come the names in the path, in
/// their order. Any other `.` is no part, and neither is what stands
/// between two `/` that follow each other, or behind a `/` at the end.
pub open spec fn parts_of(path: Seq<char>) -> Seq<Seq<char>> {
    let pieces = split(path, '/');
    let names = pieces.filter_map(name_step());
    if path.len() > 0 && path[0] == '/' {
        seq!["/"@] + names
    } else if pieces[0] == "."@ {
        seq!["."@] + names
    } else {
        names
    }
}

/// Whether `base` is `path` or leads to it, part by part. A part is taken
/// whole: `/a/bc` does not start with `/a/b`.
pub open spec fn path_starts_with(path: Seq<char>, base: Seq<char>) -> bool {
    parts_of(base).is_prefix_of(parts_of(path))
}

/// The parts of a path.
pub fn path_parts(path: &str) -> (r: Vec<String>)
    ensures
        views(r@) == parts_of(path@),
{
    let pieces = split_text(path, '/');
    proof {
        lemma_split_pieces(path@, '/');
    }
    let ghost step = name_step();
    let ghost all = split(path@, '/');
    let mut parts: Vec<String> = Vec::new();
    if starts_with(path, "/") {
        parts.push("/".to_owned());
    } else if text_eq(pieces[0].as_str(), ".") {
        parts.push(".".to_owned());
    }
    let ghost head = views(parts@);
    proof {
        reveal_strlit("/");
        assert("/"@.len() == 1 && "/"@[0] == '/');
        assert("/"@.is_prefix_of(path@) <==> path@.len() > 0 && path@[0] == '/') by {
            if path@.len() > 0 && path@[0] == '/' {
                assert(path@.subrange(0, 1) =~= "/"@);
            }
            if "/"@.is_prefix_of(path@) {
                assert(path@[0] == "/"@[0]);
            }
        }
        assert(all[0] == pieces@[0]@);
        assert(all.take(0).filter_map(step) =~= Seq::empty());
        assert(head + Seq::<Seq<char>>::empty() =~= head);
    }
    let mut i: usize = 0;
    while i < pieces.len()
        invariant
            i <= pieces.len(),
            step == name_step(),
            all == views(pieces@),
            views(parts@) == head + all.take(i as int).filter_map(step),
        decreases pieces.len() - i,
    {
        proof {
            all.lemma_filter_map_take_succ(step, i as int);
            assert(all[i as int] == pieces@[i as int]@);
        }
        let piece = pieces[i].as_str();
        if !piece.is_empty() && !text_eq(piece, ".") {
            let name = pieces[i].clone();
            proof {
                assert(views(parts@.push(name)) =~= views(parts@) + seq![name@]);
            }
            parts.push(name);
        }
        i += 1;
    }
    proof {
        assert(all.take(i as int) =~= all);
    }
    parts
}

/// Whether `base` is `path` or leads to it, part by part.
pub fn starts_with_path(path: &str, base: &str) -> (r: bool)
    ensures
        r == path_starts_with(path@, base@),
{
    let whole = path_parts(path);
    let begin = path_parts(base);
    if begin.len() > whole.len() {
        return false;
    }
    let mut i: usize = 0;
    while i < begin.len()
        invariant
            i <= begin.len() <= whole.len(),
            views(whole@) == parts_of(path@),
            views(begin@) == parts_of(base@),
            forall|k: int| 0 <= k < i ==> views(whole@)[k] == views(begin@)[k],
        decreases begin.len() - i,
    {
        if !text_eq(whole[i].as_str(), begin[i].as_str()) {
            proof {
                let w = views(whole@);
                let b = views(begin@);
                assert(w.subrange(0, b.len() as int)[i as int] != b[i as int]);
            }
            return false;
        }
        i += 1;
    }
    proof {
        let w = views(whole@);
        let b = views(begin@);
        assert(w.subrange(0, b.len() as int) =~= b);
    }
    true
}

/// The entries of a `PATH` value. An empty value has no entries.
pub open spec fn entries_of(body: Seq<char>, sep: char) -> Seq<Seq<char>> {
    if body.len() == 0 {
        Seq::empty()
    } else {
        split(body, sep)
    }
}

/// The step that passes over the paths that do not start with `base`.
pub open spec fn own_step(base: Seq<char>) -> spec_fn(Seq<char>) -> Option<Seq<char>> {
    |path: Seq<char>|
        if path_starts_with(path, base) {
            Some(path)
        } else {
            None
        }
}

/// The entries of a `PATH` value that start with `base`.
pub open spec fn own_entries(body: Seq<char>, base: Seq<char>, sep: char) -> Seq<Seq<char>> {
    entries_of(body, sep).filter_map(own_step(base))
}

/// The entries without those that came before: each entry stays where it
/// stands first.
pub open spec fn dedup(entries: Seq<Seq<char>>) -> Seq<Seq<char>>
    decreases entries.len(),
{
    if entries.len() == 0 {
        Seq::empty()
    } else {
        let before = dedup(entries.drop_last());
        if before.contains(entries.last()) {
            before
        } else {
            before.push(entries.last())
        }
    }
}

/// The `PATH` value with the given entries. An entry that holds the
/// separator cannot stand in a `PATH` value.
pub open spec fn join_paths_spec(entries: Seq<Seq<char>>, sep: char) -> Result<
    Seq<char>,
    ErrorView,
> {
    if exists|i: int| 0 <= i < entries.len() && (#[trigger] entries[i]).contains(sep) {
        Err(ErrorView::InvalidPathString)
    } else {
        Ok(join(entries, sep))
    }
}

/// One entry more.
pub proof fn lemma_dedup_push(entries: Seq<Seq<char>>, entry: Seq<char>)
    ensures
        dedup(entries.push(entry)) == if dedup(entries).contains(entry) {
            dedup(entries)
        } else {
            dedup(entries).push(entry)
        },
{
    assert(entries.push(entry).drop_last() =~= entries);
}

/// Nothing stands twice among entries without duplicates, and they hold
/// what the entries held, no more and no less.
pub proof fn lemma_dedup(entries: Seq<Seq<char>>)
    ensures
        dedup(entries).no_duplicates(),
        forall|entry: Seq<char>| dedup(entries).contains(entry) <==> entries.contains(entry),
    decreases entries.len(),
{
    if entries.len() > 0 {
        let rest = entries.drop_last();
        let last = entries.last();
        let before = dedup(rest);
        lemma_dedup(rest);
        assert forall|entry: Seq<char>| dedup(entries).contains(entry) <==> entries.contains(
            entry,
        ) by {
            assert(before.contains(entry) <==> rest.contains(entry));
            if entries.contains(entry) {
                let i = choose|i: int| 0 <= i < entries.len() && entries[i] == entry;
                if i < rest.len() {
                    assert(rest[i] == entry);
                    assert(rest.contains(entry));
                    let k = choose|k: int| 0 <= k < before.len() && before[k] == entry;
                    assert(dedup(entries)[k] == entry);
                } else if !before.contains(last) {
                    assert(dedup(entries)[before.len() as int] == entry);
                }
            }
            if dedup(entries).contains(entry) {
                let k = choose|k: int| 0 <= k < dedup(entries).len() && dedup(entries)[k] == entry;
                if k < before.len() {
                    assert(before[k] == entry);
                    assert(before.contains(entry));
                    assert(rest.contains(entry));
                    let i = choose|i: int| 0 <= i < rest.len() && rest[i] == entry;
                    assert(entries[i] == entry);
                } else {
                    assert(entries[entries.len() - 1] == entry);
                }
            }
        }
    }
}

/// Cuts a `PATH` value into its entries.
pub fn split_paths(body: &str, sep: char) -> (r: Vec<String>)
    ensures
        views(r@) == entries_of(body@, sep),
{
    if body.is_empty() {
        let none: Vec<String> = Vec::new();
        proof {
            assert(views(none@) =~= Seq::empty());
        }
        none
    } else {
        split_text(body, sep)
    }
}

/// The entries of a `PATH` value that start with `base`.
pub fn own_paths(body: &str, base: &str, sep: char) -> (r: Vec<String>)
    ensures
        views(r@) == own_entries(body@, base@, sep),
{
    let all = split_paths(body, sep);
    let ghost step = own_step(base@);
    let mut own: Vec<String> = Vec::new();
    let mut i: usize = 0;
    proof {
        assert(views(own@) =~= views(all@).take(0).filter_map(step));
    }
    while i < all.len()
        invariant
            i <= all.len(),
            step == own_step(base@),
            views(own@) == views(all@).take(i as int).filter_map(step),
        decreases all.len() - i,
    {
        proof {
            views(all@).lemma_filter_map_take_succ(step, i as int);
        }
        if starts_with_path(all[i].as_str(), base) {
            let entry = all[i].clone();
            proof {
                assert(views(own@.push(entry)) =~= views(own@) + seq![entry@]);
            }
            own.push(entry);
        }
        i += 1;
    }
    proof {
        assert(views(all@).take(i as int) =~= views(all@));
    }
    own
}

/// Whether `entry` is among the entries.
fn holds(entries: &Vec<String>, entry: &str) -> (r: bool)
    ensures
        r == views(entries@).contains(entry@),
{
    let mut i: usize = 0;
    while i < entries.len()
        invariant
            i <= entries.len(),
            forall|k: int| 0 <= k < i ==> views(entries@)[k] != entry@,
        decreases entries.len() - i,
    {
        if text_eq(entries[i].as_str(), entry) {
            proof {
                assert(views(entries@)[i as int] == entry@);
            }
            return true;
        }
        i += 1;
    }
    false
}

/// Takes away each entry that came before.
pub fn without_duplicates(entries: &Vec<String>) -> (r: Vec<String>)
    ensures
        views(r@) == dedup(views(entries@)),
{
    let mut kept: Vec<String> = Vec::new();
    let mut i: usize = 0;
    proof {
        assert(views(entries@).take(0) =~= Seq::empty());
        assert(views(kept@) =~= Seq::empty());
    }
    while i < entries.len()
        invariant
            i <= entries.len(),
            views(kept@) == dedup(views(entries@).take(i as int)),
        decreases entries.len() - i,
    {
        proof {
            lemma_dedup_push(views(entries@).take(i as int), views(entries@)[i as int]);
            assert(views(entries@).take(i as int).push(views(entries@)[i as int]) =~= views(
                entries@,
            ).take(i + 1));
        }
        if !holds(&kept, entries[i].as_str()) {
            let entry = entries[i].clone();
            proof {
                assert(views(kept@.push(entry)) =~= views(kept@).push(entry@));
            }
            kept.push(entry);
        }
        i += 1;
    }
    proof {
        assert(views(entries@).take(i as int) =~= views(entries@));
    }
    kept
}

/// Puts entries together to a `PATH` value.
pub fn join_paths(entries: &Vec<String>, sep: char) -> (r: Result<String, Error>)
    ensures
        model(r) == join_paths_spec(views(entries@), sep),
{
    let mut i: usize = 0;
    while i < entries.len()
        invariant
            i <= entries.len(),
            forall|k: int| 0 <= k < i ==> !(#[trigger] views(entries@)[k]).contains(sep),
        decreases entries.len() - i,
    {
        if contains_char(entries[i].as_str(), sep) {
            proof {
                assert(views(entries@)[i as int].contains(sep));
            }
            return Err(Error::InvalidPathString);
        }
        i += 1;
    }
    Ok(join_text(entries, sep))
}

} // verus!

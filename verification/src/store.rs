//! The packages that are installed on a host, as far as the library looks
//! at them: which releases there are, and what their metafiles hold.
//!
//! A `PackageStore` is filled by whoever walks the directories and reads the
//! files. Everything that is decided about the packages is decided here, on
//! what the store holds.

use vstd::prelude::*;

use crate::each::model;
use crate::error::{Error, ErrorView};
use crate::fs::INSTALL_TMP_PREFIX;
use crate::ident::ReleaseIdent;
use crate::metadata::MetaFile;
use crate::target::{parse_target, PackageTarget};
use crate::text::{starts_with, trim, trimmed};

verus! {

/// What an attempt to read a file gave.
#[derive(Debug)]
pub enum FileContent {
    /// The file is not there.
    Missing,
    /// The file is there and could not be opened; the text says why.
    Unreadable(String),
    /// The file could not be read as text.
    NotText,
    /// What the file holds.
    Text(String),
}

/// A metafile with what reading it gave.
#[derive(Debug)]
pub struct StoredFile {
    pub file: MetaFile,
    pub content: FileContent,
}

/// One directory of a release, with what was found in it.
#[derive(Debug)]
pub struct InstalledPackage {
    /// The release, by the names of the four directories that lead to it.
    pub ident: ReleaseIdent,
    /// The metafiles that were looked at. Where a metafile is listed more
    /// than once, the last entry counts; one that is not listed is missing.
    pub files: Vec<StoredFile>,
    /// What the default configuration holds, where it could be read.
    pub default_cfg: Option<String>,
    /// Whether `hooks/run` is a file.
    pub run_hook: bool,
    /// Whether `run` is a file.
    pub run_file: bool,
}

/// The packages of a host, and the target that the host runs.
#[derive(Debug)]
pub struct PackageStore {
    pub active_target: PackageTarget,
    /// The directories of releases that were found. Where a release is
    /// listed more than once, the last entry counts.
    pub packages: Vec<InstalledPackage>,
}

/// What is stored for a metafile: the last entry for it, or `Missing`.
pub open spec fn stored(files: Seq<StoredFile>, file: MetaFile) -> FileContent
    decreases files.len(),
{
    if files.len() == 0 {
        FileContent::Missing
    } else if files.last().file == file {
        files.last().content
    } else {
        stored(files.drop_last(), file)
    }
}

/// What a metafile gives to a reader: its text without the white space
/// around it, or the reason why there is none.
pub open spec fn read_of(content: FileContent, file: MetaFile) -> Result<Seq<char>, ErrorView> {
    match content {
        FileContent::Missing => Err(ErrorView::MetaFileNotFound(file)),
        FileContent::Unreadable(why) => Err(ErrorView::MetaFileIO(why@)),
        FileContent::NotText => Err(ErrorView::MetaFileMalformed(file)),
        FileContent::Text(raw) => Ok(trimmed(raw@)),
    }
}

/// The entry of a release: the last one with its identifier.
pub open spec fn found(packages: Seq<InstalledPackage>, ident: Seq<Seq<char>>) -> Option<
    InstalledPackage,
>
    decreases packages.len(),
{
    if packages.len() == 0 {
        None
    } else if packages.last().ident@ == ident {
        Some(packages.last())
    } else {
        found(packages.drop_last(), ident)
    }
}

/// The target that a release was built for, where its `TARGET` metafile
/// can be read and names a target.
pub open spec fn target_of(package: InstalledPackage) -> Option<PackageTarget> {
    match read_of(stored(package.files@, MetaFile::Target), MetaFile::Target) {
        Ok(name) => parse_target(name),
        Err(_) => None,
    }
}

/// Whether a release counts as installed on a host that runs `active`: it
/// is no unfinished install, and it was built for `active`.
pub open spec fn visible(package: InstalledPackage, active: PackageTarget) -> bool {
    !INSTALL_TMP_PREFIX@.is_prefix_of(package.ident@[3]) && target_of(package) == Some(active)
}

/// The step that passes over what does not count as installed.
pub open spec fn candidate_step(active: PackageTarget) -> spec_fn(InstalledPackage) -> Option<
    Seq<Seq<char>>,
> {
    |package: InstalledPackage|
        if visible(package, active) {
            Some(package.ident@)
        } else {
            None
        }
}

impl InstalledPackage {
    /// A release directory in which nothing was found.
    pub fn new(ident: ReleaseIdent) -> (r: InstalledPackage)
        ensures
            r.ident == ident,
            r.files@.len() == 0,
            r.default_cfg is None,
            !r.run_hook,
            !r.run_file,
    {
        InstalledPackage {
            ident,
            files: Vec::new(),
            default_cfg: None,
            run_hook: false,
            run_file: false,
        }
    }

    /// Notes what reading a metafile gave. What was noted for the metafile
    /// before counts no longer.
    pub fn write(&mut self, file: MetaFile, content: FileContent)
        ensures
            final(self).ident == old(self).ident,
            final(self).default_cfg == old(self).default_cfg,
            final(self).run_hook == old(self).run_hook,
            final(self).run_file == old(self).run_file,
            stored(final(self).files@, file) == content,
            forall|other: MetaFile|
                other != file ==> stored(final(self).files@, other) == stored(
                    old(self).files@,
                    other,
                ),
    {
        let ghost before = self.files@;
        self.files.push(StoredFile { file, content });
        proof {
            assert(self.files@.drop_last() =~= before);
        }
    }

    /// Where the entry for a metafile stands, if there is one.
    fn place_of(&self, file: MetaFile) -> (r: Option<usize>)
        ensures
            match r {
                Some(i) => i < self.files@.len() && self.files@[i as int].file == file && stored(
                    self.files@,
                    file,
                ) == self.files@[i as int].content,
                None => stored(self.files@, file) is Missing,
            },
    {
        let mut i: usize = self.files.len();
        proof {
            assert(self.files@.take(i as int) =~= self.files@);
        }
        while i > 0
            invariant
                i <= self.files.len(),
                stored(self.files@, file) == stored(self.files@.take(i as int), file),
            decreases i,
        {
            proof {
                assert(self.files@.take(i as int).drop_last() =~= self.files@.take(i - 1));
            }
            i -= 1;
            if self.files[i].file == file {
                return Some(i);
            }
        }
        None
    }

    /// Reads a metafile: its text without the white space around it.
    pub fn read_metafile(&self, file: MetaFile) -> (r: Result<String, Error>)
        ensures
            model(r) == read_of(stored(self.files@, file), file),
    {
        match self.place_of(file) {
            Some(i) => match &self.files[i].content {
                FileContent::Missing => Err(Error::MetaFileNotFound(file)),
                FileContent::Unreadable(why) => Err(Error::MetaFileIO(why.clone())),
                FileContent::NotText => Err(Error::MetaFileMalformed(file)),
                FileContent::Text(raw) => Ok(trim(raw.as_str())),
            },
            None => Err(Error::MetaFileNotFound(file)),
        }
    }

    /// Whether the release counts as installed on a host that runs
    /// `active`.
    pub fn is_visible(&self, active: PackageTarget) -> (r: bool)
        ensures
            r == visible(*self, active),
    {
        if starts_with(self.ident.release().as_str(), INSTALL_TMP_PREFIX) {
            return false;
        }
        let name = match self.read_metafile(MetaFile::Target) {
            Ok(name) => name,
            Err(_) => {
                return false;
            },
        };
        match PackageTarget::from_str(name.as_str()) {
            Ok(target) => target == active,
            Err(_) => false,
        }
    }
}

impl PackageStore {
    /// A host on which nothing is installed.
    pub fn new(active_target: PackageTarget) -> (r: PackageStore)
        ensures
            r.active_target == active_target,
            r.packages@.len() == 0,
    {
        PackageStore { active_target, packages: Vec::new() }
    }

    /// The releases that count as installed, in the order of the store.
    pub open spec fn candidates(&self) -> Seq<Seq<Seq<char>>> {
        self.packages@.filter_map(candidate_step(self.active_target))
    }

    /// What reading a metafile of a release gives. A release that the
    /// store does not hold has no metafiles.
    pub open spec fn read(&self, ident: Seq<Seq<char>>, file: MetaFile) -> Result<
        Seq<char>,
        ErrorView,
    > {
        match found(self.packages@, ident) {
            Some(package) => read_of(stored(package.files@, file), file),
            None => Err(ErrorView::MetaFileNotFound(file)),
        }
    }

    /// The entry of a release.
    pub fn package(&self, ident: &ReleaseIdent) -> (r: Option<&InstalledPackage>)
        ensures
            match r {
                Some(package) => found(self.packages@, ident@) == Some(*package),
                None => found(self.packages@, ident@) is None,
            },
    {
        let mut i: usize = self.packages.len();
        proof {
            assert(self.packages@.take(i as int) =~= self.packages@);
        }
        while i > 0
            invariant
                i <= self.packages.len(),
                found(self.packages@, ident@) == found(self.packages@.take(i as int), ident@),
            decreases i,
        {
            proof {
                assert(self.packages@.take(i as int).drop_last() =~= self.packages@.take(i - 1));
            }
            i -= 1;
            if self.packages[i].ident == *ident {
                return Some(&self.packages[i]);
            }
        }
        None
    }

    /// Reads a metafile of a release.
    pub fn read_metafile(&self, ident: &ReleaseIdent, file: MetaFile) -> (r: Result<String, Error>)
        ensures
            model(r) == self.read(ident@, file),
    {
        match self.package(ident) {
            Some(package) => package.read_metafile(file),
            None => Err(Error::MetaFileNotFound(file)),
        }
    }

    /// Lists the releases that count as installed: those that are no
    /// unfinished installs and whose `TARGET` metafile names the target
    /// that the host runs.
    pub fn package_list(&self) -> (r: Vec<ReleaseIdent>)
        ensures
            r.deep_view() == self.candidates(),
    {
        let ghost step = candidate_step(self.active_target);
        let mut list: Vec<ReleaseIdent> = Vec::new();
        let mut i: usize = 0;
        proof {
            assert(list.deep_view() =~= self.packages@.take(0).filter_map(step));
        }
        while i < self.packages.len()
            invariant
                i <= self.packages.len(),
                step == candidate_step(self.active_target),
                list.deep_view() == self.packages@.take(i as int).filter_map(step),
            decreases self.packages.len() - i,
        {
            proof {
                self.packages@.lemma_filter_map_take_succ(step, i as int);
            }
            if self.packages[i].is_visible(self.active_target) {
                let ghost before = list.deep_view();
                list.push(self.packages[i].ident.clone());
                proof {
                    assert(list.deep_view() =~= before.push(self.packages@[i as int].ident@));
                }
            }
            i += 1;
        }
        proof {
            assert(self.packages@.take(i as int) =~= self.packages@);
        }
        list
    }
}

/// A release that is an unfinished install, or whose `TARGET` metafile is
/// missing, cannot be read or names another target than the one the host
/// runs, is not listed: what is listed is the identifier of a release in
/// the store that counts as installed.
pub proof fn lemma_candidates_are_visible(store: PackageStore, k: int) -> (i: int)
    requires
        0 <= k < store.candidates().len(),
    ensures
        0 <= i < store.packages@.len(),
        visible(store.packages@[i], store.active_target),
        store.packages@[i].ident@ == store.candidates()[k],
{
    let step = candidate_step(store.active_target);
    let wanted = store.candidates()[k];
    assert(store.candidates().contains(wanted));
    store.packages@.lemma_filter_map_contains(step, wanted);
    let package = choose|t: InstalledPackage| #[trigger]
        store.packages@.contains(t) && step(t) == Some(wanted);
    let i = choose|i: int| 0 <= i < store.packages@.len() && store.packages@[i] == package;
    i
}

} // verus!

//! The well-known files that lie beside an installed package.

use vstd::prelude::*;
use vstd::std_specs::cmp::PartialEqSpecImpl;

use crate::each::{collect, lemma_collect_fails, lemma_collect_next, model};
use crate::error::{Error, ErrorView};
use crate::ident::{lemma_parsed_is_valid, parse_ident, Ident};
use crate::keyvalue::{pair_views, KeyValueMap};
use crate::text::{
    lines, lines_of, split, split_first, split_once, split_text, strip_feeds, text_eq, views,
    without_feeds,
};

verus! {

/// The name under which the default configuration of a package is stored.
pub const DEFAULT_CFG_FILE: &'static str = "default.toml";

/// A metafile of an installed package.
#[derive(Clone, Copy, Debug, PartialEq, Eq, Hash, Structural)]
pub enum MetaFile {
    BindMap,
    Binds,
    BindsOptional,
    Deps,
    Exports,
    Exposes,
    Ident,
    Path,
    RuntimeEnvironment,
    RuntimePath,
    Services,
    SvcGroup,
    SvcUser,
    Target,
    TDeps,
    Type,
}

/// The file name of a metafile.
pub open spec fn metafile_name(file: MetaFile) -> Seq<char> {
    match file {
        MetaFile::BindMap => "BIND_MAP"@,
        MetaFile::Binds => "BINDS"@,
        MetaFile::BindsOptional => "BINDS_OPTIONAL"@,
        MetaFile::Deps => "DEPS"@,
        MetaFile::Exports => "EXPORTS"@,
        MetaFile::Exposes => "EXPOSES"@,
        MetaFile::Ident => "IDENT"@,
        MetaFile::Path => "PATH"@,
        MetaFile::RuntimeEnvironment => "RUNTIME_ENVIRONMENT"@,
        MetaFile::RuntimePath => "RUNTIME_PATH"@,
        MetaFile::Services => "SERVICES"@,
        MetaFile::SvcGroup => "SVC_GROUP"@,
        MetaFile::SvcUser => "SVC_USER"@,
        MetaFile::Target => "TARGET"@,
        MetaFile::TDeps => "TDEPS"@,
        MetaFile::Type => "TYPE"@,
    }
}

impl MetaFile {
    pub fn as_str(&self) -> (s: &'static str)
        ensures
            s@ == metafile_name(*self),
    {
        match self {
            MetaFile::BindMap => "BIND_MAP",
            MetaFile::Binds => "BINDS",
            MetaFile::BindsOptional => "BINDS_OPTIONAL",
            MetaFile::Deps => "DEPS",
            MetaFile::Exports => "EXPORTS",
            MetaFile::Exposes => "EXPOSES",
            MetaFile::Ident => "IDENT",
            MetaFile::Path => "PATH",
            MetaFile::RuntimeEnvironment => "RUNTIME_ENVIRONMENT",
            MetaFile::RuntimePath => "RUNTIME_PATH",
            MetaFile::Services => "SERVICES",
            MetaFile::SvcGroup => "SVC_GROUP",
            MetaFile::SvcUser => "SVC_USER",
            MetaFile::Target => "TARGET",
            MetaFile::TDeps => "TDEPS",
            MetaFile::Type => "TYPE",
        }
    }
}

/// What a package is: one service, or several packages under one name.
#[derive(Clone, Copy, Debug, PartialEq, Eq, Hash, Structural)]
pub enum PackageType {
    Standalone,
    Composite,
}

/// The name of a kind of package, as it stands in a `TYPE` metafile.
pub open spec fn package_type_name(kind: PackageType) -> Seq<char> {
    match kind {
        PackageType::Standalone => "Standalone"@,
        PackageType::Composite => "Composite"@,
    }
}

/// The kind of package that a name stands for.
pub open spec fn parse_package_type(name: Seq<char>) -> Result<PackageType, ErrorView> {
    if name == package_type_name(PackageType::Standalone) {
        Ok(PackageType::Standalone)
    } else if name == package_type_name(PackageType::Composite) {
        Ok(PackageType::Composite)
    } else {
        Err(ErrorView::InvalidPackageType(name))
    }
}

impl DeepView for PackageType {
    type V = PackageType;

    open spec fn deep_view(&self) -> PackageType {
        *self
    }
}

impl PackageType {
    pub fn as_str(&self) -> (s: &'static str)
        ensures
            s@ == package_type_name(*self),
    {
        match self {
            PackageType::Standalone => "Standalone",
            PackageType::Composite => "Composite",
        }
    }

    /// Reads the name of a kind of package.
    pub fn from_str(value: &str) -> (r: Result<PackageType, Error>)
        ensures
            model(r) == parse_package_type(value@),
    {
        if text_eq(value, PackageType::Standalone.as_str()) {
            Ok(PackageType::Standalone)
        } else if text_eq(value, PackageType::Composite.as_str()) {
            Ok(PackageType::Composite)
        } else {
            Err(Error::InvalidPackageType(value.to_owned()))
        }
    }
}

/// A name and an identifier, written as `name:ident`.
pub open spec fn named_ident(text: Seq<char>) -> Result<(Seq<char>, Seq<Seq<char>>), ErrorView> {
    let pieces = split(text, ':');
    if pieces.len() < 2 {
        Err(ErrorView::MetaFileBadBind)
    } else {
        match parse_ident(pieces[1]) {
            Some(parts) => Ok((pieces[0], parts)),
            None => Err(ErrorView::InvalidPackageIdent(pieces[1])),
        }
    }
}

fn parse_named_ident(text: &str) -> (r: Result<(String, Ident), Error>)
    ensures
        match r {
            Ok((name, ident)) => named_ident(text@) == Ok::<
                (Seq<char>, Seq<Seq<char>>),
                ErrorView,
            >((name@, ident@)),
            Err(e) => named_ident(text@) == Err::<(Seq<char>, Seq<Seq<char>>), ErrorView>(e@),
        },
{
    let pieces = split_text(text, ':');
    if pieces.len() < 2 {
        return Err(Error::MetaFileBadBind);
    }
    let ghost all = split(text@, ':');
    proof {
        assert(all[0] == pieces@[0]@ && all[1] == pieces@[1]@);
    }
    match Ident::from_str(pieces[1].as_str()) {
        Ok(ident) => Ok((pieces[0].clone(), ident)),
        Err(e) => Err(e),
    }
}

/// What a service needs from another: a name for the need, and the package
/// that can meet it.
#[derive(Debug, Eq, Hash)]
pub struct Bind {
    pub name: String,
    pub ident: Ident,
}

/// Which package meets a need of a service inside a composite package.
#[derive(Debug, Eq, Hash)]
pub struct BindMapping {
    pub bind_name: String,
    pub satisfying_service: Ident,
}

impl DeepView for Bind {
    type V = (Seq<char>, Seq<Seq<char>>);

    open spec fn deep_view(&self) -> (Seq<char>, Seq<Seq<char>>) {
        (self.name@, self.ident@)
    }
}

impl DeepView for BindMapping {
    type V = (Seq<char>, Seq<Seq<char>>);

    open spec fn deep_view(&self) -> (Seq<char>, Seq<Seq<char>>) {
        (self.bind_name@, self.satisfying_service@)
    }
}

impl Clone for Bind {
    fn clone(&self) -> (r: Self)
        ensures
            r.deep_view() == self.deep_view(),
    {
        Bind { name: self.name.clone(), ident: self.ident.clone() }
    }
}

impl Clone for BindMapping {
    fn clone(&self) -> (r: Self)
        ensures
            r.deep_view() == self.deep_view(),
    {
        BindMapping {
            bind_name: self.bind_name.clone(),
            satisfying_service: self.satisfying_service.clone(),
        }
    }
}

impl PartialEq for Bind {
    fn eq(&self, other: &Self) -> (r: bool) {
        self.name == other.name && self.ident == other.ident
    }
}

impl PartialEqSpecImpl for Bind {
    open spec fn obeys_eq_spec() -> bool {
        true
    }

    open spec fn eq_spec(&self, other: &Self) -> bool {
        self.deep_view() == other.deep_view()
    }
}

impl PartialEq for BindMapping {
    fn eq(&self, other: &Self) -> (r: bool) {
        self.bind_name == other.bind_name && self.satisfying_service == other.satisfying_service
    }
}

impl PartialEqSpecImpl for BindMapping {
    open spec fn obeys_eq_spec() -> bool {
        true
    }

    open spec fn eq_spec(&self, other: &Self) -> bool {
        self.deep_view() == other.deep_view()
    }
}

impl Bind {
    /// Reads `name:ident`. A text without a `:` is no bind at all; one with
    /// a `:` and no identifier behind it has a bad identifier.
    pub fn from_str(line: &str) -> (r: Result<Bind, Error>)
        ensures
            model(r) == named_ident(line@),
    {
        match parse_named_ident(line) {
            Ok((name, ident)) => Ok(Bind { name, ident }),
            Err(e) => Err(e),
        }
    }
}

impl BindMapping {
    /// Reads `name:ident`. A text without a `:` is no mapping at all; one
    /// with a `:` and no identifier behind it has a bad identifier.
    pub fn from_str(line: &str) -> (r: Result<BindMapping, Error>)
        ensures
            model(r) == named_ident(line@),
    {
        match parse_named_ident(line) {
            Ok((name, ident)) => Ok(BindMapping { bind_name: name, satisfying_service: ident }),
            Err(e) => Err(e),
        }
    }
}

/// What reading a metafile gave, with the error as what it holds.
pub open spec fn read_view(read: Result<String, Error>) -> Result<Seq<char>, ErrorView> {
    match read {
        Ok(body) => Ok(body@),
        Err(e) => Err(e@),
    }
}

/// The step that reads one line of a metafile of dependencies. An empty
/// line is passed over. Where `qualified` holds, an identifier without a
/// release is refused.
pub open spec fn dep_step(qualified: bool) -> spec_fn(Seq<char>) -> Result<
    Option<Seq<Seq<char>>>,
    ErrorView,
> {
    |line: Seq<char>|
        if line.len() == 0 {
            Ok(None)
        } else {
            match parse_ident(line) {
                None => Err(ErrorView::InvalidPackageIdent(line)),
                Some(parts) => if qualified && parts.len() != 4 {
                    Err(ErrorView::FullyQualifiedPackageIdentRequired(line))
                } else {
                    Ok(Some(parts))
                },
            }
        }
}

/// The identifiers in a metafile of dependencies, one to a line. Only the
/// services of a composite package may lack a release. A metafile that is
/// not there holds no identifier.
pub open spec fn deps_of(read: Result<Seq<char>, ErrorView>, file: MetaFile) -> Result<
    Seq<Seq<Seq<char>>>,
    ErrorView,
> {
    match read {
        Ok(body) => collect(lines_of(body), dep_step(file != MetaFile::Services)),
        Err(ErrorView::MetaFileNotFound(_)) => Ok(Seq::empty()),
        Err(e) => Err(e),
    }
}

/// Reads a metafile of dependencies.
pub fn parse_deps(read: Result<String, Error>, file: MetaFile) -> (r: Result<Vec<Ident>, Error>)
    ensures
        model(r) == deps_of(read_view(read), file),
        r matches Ok(deps) ==> forall|i: int|
            0 <= i < deps.len() ==> (#[trigger] deps[i]).well_formed() && (file
                != MetaFile::Services ==> deps[i] is Release),
{
    let body = match read {
        Ok(body) => body,
        Err(Error::MetaFileNotFound(_)) => {
            let none: Vec<Ident> = Vec::new();
            proof {
                assert(none.deep_view() =~= Seq::empty());
            }
            return Ok(none);
        },
        Err(e) => {
            return Err(e);
        },
    };
    let qualified = file != MetaFile::Services;
    let all = lines(body.as_str());
    let ghost step = dep_step(qualified);
    let mut deps: Vec<Ident> = Vec::new();
    let mut i: usize = 0;
    proof {
        assert(deps.deep_view() =~= Seq::empty());
        assert(views(all@).take(0) =~= Seq::empty());
    }
    while i < all.len()
        invariant
            i <= all.len(),
            views(all@) == lines_of(body@),
            read_view(read) == Ok::<Seq<char>, ErrorView>(body@),
            qualified == (file != MetaFile::Services),
            step == dep_step(qualified),
            collect(views(all@).take(i as int), step) == Ok::<Seq<Seq<Seq<char>>>, ErrorView>(
                deps.deep_view(),
            ),
            forall|k: int|
                0 <= k < deps.len() ==> (#[trigger] deps[k]).well_formed() && (qualified
                    ==> deps[k] is Release),
        decreases all.len() - i,
    {
        let line = all[i].as_str();
        proof {
            lemma_collect_next(views(all@), step, i as int);
            assert(views(all@)[i as int] == line@);
        }
        if !line.is_empty() {
            let ident = match Ident::from_str(line) {
                Ok(ident) => ident,
                Err(e) => {
                    proof {
                        lemma_collect_fails(views(all@), step, i + 1);
                    }
                    return Err(e);
                },
            };
            if qualified && !ident.fully_qualified() {
                proof {
                    lemma_collect_fails(views(all@), step, i + 1);
                    lemma_parsed_is_valid(line@, 2, 4);
                }
                return Err(Error::FullyQualifiedPackageIdentRequired(ident.to_string()));
            }
            let ghost before = deps.deep_view();
            let ghost parts = ident@;
            deps.push(ident);
            proof {
                assert(deps.deep_view() =~= before.push(parts));
            }
        }
        i += 1;
    }
    proof {
        assert(views(all@).take(i as int) =~= views(all@));
    }
    Ok(deps)
}

/// The step that reads one line of a metafile of binds. A line that is no
/// bind makes the metafile malformed.
pub open spec fn bind_step(file: MetaFile) -> spec_fn(Seq<char>) -> Result<
    Option<(Seq<char>, Seq<Seq<char>>)>,
    ErrorView,
> {
    |line: Seq<char>|
        match named_ident(line) {
            Ok(bind) => Ok(Some(bind)),
            Err(_) => Err(ErrorView::MetaFileMalformed(file)),
        }
}

/// The binds in a metafile, one to a line. A metafile that is not there
/// holds no bind.
pub open spec fn binds_of(read: Result<Seq<char>, ErrorView>, file: MetaFile) -> Result<
    Seq<(Seq<char>, Seq<Seq<char>>)>,
    ErrorView,
> {
    match read {
        Ok(body) => collect(lines_of(body), bind_step(file)),
        Err(ErrorView::MetaFileNotFound(_)) => Ok(Seq::empty()),
        Err(e) => Err(e),
    }
}

/// Reads a metafile of binds.
pub fn parse_binds(read: Result<String, Error>, file: MetaFile) -> (r: Result<Vec<Bind>, Error>)
    ensures
        model(r) == binds_of(read_view(read), file),
{
    let body = match read {
        Ok(body) => body,
        Err(Error::MetaFileNotFound(_)) => {
            let none: Vec<Bind> = Vec::new();
            proof {
                assert(none.deep_view() =~= Seq::empty());
            }
            return Ok(none);
        },
        Err(e) => {
            return Err(e);
        },
    };
    let all = lines(body.as_str());
    let ghost step = bind_step(file);
    let mut binds: Vec<Bind> = Vec::new();
    let mut i: usize = 0;
    proof {
        assert(binds.deep_view() =~= Seq::empty());
        assert(views(all@).take(0) =~= Seq::empty());
    }
    while i < all.len()
        invariant
            i <= all.len(),
            views(all@) == lines_of(body@),
            read_view(read) == Ok::<Seq<char>, ErrorView>(body@),
            step == bind_step(file),
            collect(views(all@).take(i as int), step) == Ok::<
                Seq<(Seq<char>, Seq<Seq<char>>)>,
                ErrorView,
            >(binds.deep_view()),
        decreases all.len() - i,
    {
        let line = all[i].as_str();
        proof {
            lemma_collect_next(views(all@), step, i as int);
            assert(views(all@)[i as int] == line@);
        }
        let bind = match Bind::from_str(line) {
            Ok(bind) => bind,
            Err(_) => {
                proof {
                    lemma_collect_fails(views(all@), step, i + 1);
                }
                return Err(Error::MetaFileMalformed(file));
            },
        };
        let ghost before = binds.deep_view();
        let ghost added = bind.deep_view();
        binds.push(bind);
        proof {
            assert(binds.deep_view() =~= before.push(added));
        }
        i += 1;
    }
    proof {
        assert(views(all@).take(i as int) =~= views(all@));
    }
    Ok(binds)
}

/// The step that reads one mapping of a line of a bind map.
pub open spec fn mapping_step() -> spec_fn(Seq<char>) -> Result<
    Option<(Seq<char>, Seq<Seq<char>>)>,
    ErrorView,
> {
    |text: Seq<char>|
        match named_ident(text) {
            Ok(mapping) => Ok(Some(mapping)),
            Err(e) => Err(e),
        }
}

/// One line of a bind map, written as `ident=mapping mapping ...`: the
/// identifier of a service, and for each of its needs the package that
/// meets it.
pub open spec fn bind_map_line(line: Seq<char>) -> Result<
    (Seq<Seq<char>>, Seq<(Seq<char>, Seq<Seq<char>>)>),
    ErrorView,
> {
    let pieces = split(line, '=');
    if pieces.len() < 2 {
        Err(ErrorView::MetaFileBadBind)
    } else {
        match parse_ident(pieces[0]) {
            None => Err(ErrorView::InvalidPackageIdent(pieces[0])),
            Some(parts) => match collect(split(pieces[1], ' '), mapping_step()) {
                Ok(mappings) => Ok((parts, mappings)),
                Err(e) => Err(e),
            },
        }
    }
}

/// Reads one line of a bind map.
pub fn parse_bind_map_line(line: &str) -> (r: Result<(Ident, Vec<BindMapping>), Error>)
    ensures
        model(r) == bind_map_line(line@),
{
    let pieces = split_text(line, '=');
    if pieces.len() < 2 {
        return Err(Error::MetaFileBadBind);
    }
    let ghost all = split(line@, '=');
    proof {
        assert(all[0] == pieces@[0]@ && all[1] == pieces@[1]@);
    }
    let ident = match Ident::from_str(pieces[0].as_str()) {
        Ok(ident) => ident,
        Err(e) => {
            return Err(e);
        },
    };
    let texts = split_text(pieces[1].as_str(), ' ');
    let ghost step = mapping_step();
    let mut mappings: Vec<BindMapping> = Vec::new();
    let mut i: usize = 0;
    proof {
        assert(mappings.deep_view() =~= Seq::empty());
        assert(views(texts@).take(0) =~= Seq::empty());
    }
    while i < texts.len()
        invariant
            i <= texts.len(),
            views(texts@) == split(all[1], ' '),
            all == split(line@, '='),
            all.len() >= 2,
            parse_ident(all[0]) == Some(ident@),
            step == mapping_step(),
            collect(views(texts@).take(i as int), step) == Ok::<
                Seq<(Seq<char>, Seq<Seq<char>>)>,
                ErrorView,
            >(mappings.deep_view()),
        decreases texts.len() - i,
    {
        let text = texts[i].as_str();
        proof {
            lemma_collect_next(views(texts@), step, i as int);
            assert(views(texts@)[i as int] == text@);
        }
        let mapping = match BindMapping::from_str(text) {
            Ok(mapping) => mapping,
            Err(e) => {
                proof {
                    lemma_collect_fails(views(texts@), step, i + 1);
                }
                return Err(e);
            },
        };
        let ghost before = mappings.deep_view();
        let ghost added = mapping.deep_view();
        mappings.push(mapping);
        proof {
            assert(mappings.deep_view() =~= before.push(added));
        }
        i += 1;
    }
    proof {
        assert(views(texts@).take(i as int) =~= views(texts@));
    }
    Ok((ident, mappings))
}

/// The step that reads one line of a bind map. A line that is none makes
/// the metafile malformed.
pub open spec fn bind_map_step() -> spec_fn(Seq<char>) -> Result<
    Option<(Seq<Seq<char>>, Seq<(Seq<char>, Seq<Seq<char>>)>)>,
    ErrorView,
> {
    |line: Seq<char>|
        match bind_map_line(line) {
            Ok(entry) => Ok(Some(entry)),
            Err(_) => Err(ErrorView::MetaFileMalformed(MetaFile::BindMap)),
        }
}

/// The lines of a bind map, in their order. A metafile that is not there
/// holds none.
pub open spec fn bind_map_of(read: Result<Seq<char>, ErrorView>) -> Result<
    Seq<(Seq<Seq<char>>, Seq<(Seq<char>, Seq<Seq<char>>)>)>,
    ErrorView,
> {
    match read {
        Ok(body) => collect(lines_of(body), bind_map_step()),
        Err(ErrorView::MetaFileNotFound(_)) => Ok(Seq::empty()),
        Err(e) => Err(e),
    }
}

/// Reads a bind map.
pub fn parse_bind_map(read: Result<String, Error>) -> (r: Result<
    Vec<(Ident, Vec<BindMapping>)>,
    Error,
>)
    ensures
        model(r) == bind_map_of(read_view(read)),
{
    let body = match read {
        Ok(body) => body,
        Err(Error::MetaFileNotFound(_)) => {
            let none: Vec<(Ident, Vec<BindMapping>)> = Vec::new();
            proof {
                assert(none.deep_view() =~= Seq::empty());
            }
            return Ok(none);
        },
        Err(e) => {
            return Err(e);
        },
    };
    let all = lines(body.as_str());
    let ghost step = bind_map_step();
    let mut entries: Vec<(Ident, Vec<BindMapping>)> = Vec::new();
    let mut i: usize = 0;
    proof {
        assert(entries.deep_view() =~= Seq::empty());
        assert(views(all@).take(0) =~= Seq::empty());
    }
    while i < all.len()
        invariant
            i <= all.len(),
            views(all@) == lines_of(body@),
            read_view(read) == Ok::<Seq<char>, ErrorView>(body@),
            step == bind_map_step(),
            collect(views(all@).take(i as int), step) == Ok::<
                Seq<(Seq<Seq<char>>, Seq<(Seq<char>, Seq<Seq<char>>)>)>,
                ErrorView,
            >(entries.deep_view()),
        decreases all.len() - i,
    {
        let line = all[i].as_str();
        proof {
            lemma_collect_next(views(all@), step, i as int);
            assert(views(all@)[i as int] == line@);
        }
        let entry = match parse_bind_map_line(line) {
            Ok(entry) => entry,
            Err(_) => {
                proof {
                    lemma_collect_fails(views(all@), step, i + 1);
                }
                return Err(Error::MetaFileMalformed(MetaFile::BindMap));
            },
        };
        let ghost before = entries.deep_view();
        let ghost added = entry.deep_view();
        entries.push(entry);
        proof {
            assert(entries.deep_view() =~= before.push(added));
        }
        i += 1;
    }
    proof {
        assert(views(all@).take(i as int) =~= views(all@));
    }
    Ok(entries)
}

/// The step that reads one line of the shape `KEY=VALUE`: the key ends at
/// the first `=`. A line without one makes the metafile malformed.
pub open spec fn key_value_step(file: MetaFile) -> spec_fn(Seq<char>) -> Result<
    Option<(Seq<char>, Seq<char>)>,
    ErrorView,
> {
    |line: Seq<char>|
        match split_once(line, '=') {
            Some(pair) => Ok(Some(pair)),
            None => Err(ErrorView::MetaFileMalformed(file)),
        }
}

/// The pairs in a text of `KEY=VALUE` lines, in their order.
pub open spec fn key_values_of(body: Seq<char>, file: MetaFile) -> Result<
    Seq<(Seq<char>, Seq<char>)>,
    ErrorView,
> {
    collect(lines_of(body), key_value_step(file))
}

/// Reads a text of `KEY=VALUE` lines, the body of the metafile `file`.
pub fn parse_key_value(body: &str, file: MetaFile) -> (r: Result<KeyValueMap, Error>)
    ensures
        match r {
            Ok(map) => key_values_of(body@, file) == Ok::<Seq<(Seq<char>, Seq<char>)>, ErrorView>(
                pair_views(map.pairs@),
            ),
            Err(e) => key_values_of(body@, file) == Err::<Seq<(Seq<char>, Seq<char>)>, ErrorView>(
                e@,
            ),
        },
{
    let all = lines(body);
    let ghost step = key_value_step(file);
    let mut map = KeyValueMap::new();
    let mut i: usize = 0;
    proof {
        assert(pair_views(map.pairs@) =~= Seq::empty());
        assert(views(all@).take(0) =~= Seq::empty());
    }
    while i < all.len()
        invariant
            i <= all.len(),
            views(all@) == lines_of(body@),
            step == key_value_step(file),
            collect(views(all@).take(i as int), step) == Ok::<
                Seq<(Seq<char>, Seq<char>)>,
                ErrorView,
            >(pair_views(map.pairs@)),
        decreases all.len() - i,
    {
        let line = all[i].as_str();
        proof {
            lemma_collect_next(views(all@), step, i as int);
            assert(views(all@)[i as int] == line@);
        }
        match split_first(line, '=') {
            Some((key, value)) => {
                let ghost before = pair_views(map.pairs@);
                let ghost added = (key@, value@);
                map.insert(key, value);
                proof {
                    assert(pair_views(map.pairs@) =~= before.push(added));
                }
            },
            None => {
                proof {
                    lemma_collect_fails(views(all@), step, i + 1);
                }
                return Err(Error::MetaFileMalformed(file));
            },
        }
        i += 1;
    }
    proof {
        assert(views(all@).take(i as int) =~= views(all@));
    }
    Ok(map)
}

/// The pairs in a metafile of `KEY=VALUE` lines. A metafile that is not
/// there holds none.
pub open spec fn key_value_file_of(read: Result<Seq<char>, ErrorView>, file: MetaFile) -> Result<
    Seq<(Seq<char>, Seq<char>)>,
    ErrorView,
> {
    match read {
        Ok(body) => key_values_of(body, file),
        Err(ErrorView::MetaFileNotFound(_)) => Ok(Seq::empty()),
        Err(e) => Err(e),
    }
}

/// Reads a metafile of `KEY=VALUE` lines.
pub fn parse_key_value_file(read: Result<String, Error>, file: MetaFile) -> (r: Result<
    KeyValueMap,
    Error,
>)
    ensures
        match r {
            Ok(map) => key_value_file_of(read_view(read), file) == Ok::<
                Seq<(Seq<char>, Seq<char>)>,
                ErrorView,
            >(pair_views(map.pairs@)),
            Err(e) => key_value_file_of(read_view(read), file) == Err::<
                Seq<(Seq<char>, Seq<char>)>,
                ErrorView,
            >(e@),
        },
{
    match read {
        Ok(body) => parse_key_value(body.as_str(), file),
        Err(Error::MetaFileNotFound(_)) => {
            let map = KeyValueMap::new();
            proof {
                assert(pair_views(map.pairs@) =~= Seq::empty());
            }
            Ok(map)
        },
        Err(e) => Err(e),
    }
}

/// What a package exposes: the words of the metafile, which stand on one
/// line with a space between them. A metafile that is not there holds none.
pub open spec fn exposes_of(read: Result<Seq<char>, ErrorView>) -> Result<
    Seq<Seq<char>>,
    ErrorView,
> {
    match read {
        Ok(body) => Ok(split(body, ' ').map_values(|word: Seq<char>| strip_feeds(word))),
        Err(ErrorView::MetaFileNotFound(_)) => Ok(Seq::empty()),
        Err(e) => Err(e),
    }
}

/// Reads what a package exposes.
pub fn parse_exposes(read: Result<String, Error>) -> (r: Result<Vec<String>, Error>)
    ensures
        model(r) == exposes_of(read_view(read)),
{
    let body = match read {
        Ok(body) => body,
        Err(Error::MetaFileNotFound(_)) => {
            let none: Vec<String> = Vec::new();
            proof {
                assert(none.deep_view() =~= Seq::empty());
            }
            return Ok(none);
        },
        Err(e) => {
            return Err(e);
        },
    };
    let words = split_text(body.as_str(), ' ');
    let ghost wanted = split(body@, ' ').map_values(|word: Seq<char>| strip_feeds(word));
    let mut exposes: Vec<String> = Vec::new();
    let mut i: usize = 0;
    proof {
        assert(views(exposes@) =~= wanted.take(0));
    }
    while i < words.len()
        invariant
            i <= words.len(),
            views(words@) == split(body@, ' '),
            wanted == split(body@, ' ').map_values(|word: Seq<char>| strip_feeds(word)),
            views(exposes@) == wanted.take(i as int),
        decreases words.len() - i,
    {
        let word = without_feeds(words[i].as_str());
        proof {
            assert(views(words@)[i as int] == words@[i as int]@);
            assert(wanted[i as int] == strip_feeds(split(body@, ' ')[i as int]));
            assert(views(exposes@.push(word)) =~= views(exposes@).push(word@));
            assert(wanted.take(i as int).push(wanted[i as int]) =~= wanted.take(i + 1));
        }
        exposes.push(word);
        i += 1;
    }
    proof {
        assert(wanted.take(i as int) =~= wanted);
        assert(exposes.deep_view() =~= views(exposes@));
    }
    Ok(exposes)
}

/// The one text that a metafile holds, if the metafile is there.
pub open spec fn single_of(read: Result<Seq<char>, ErrorView>) -> Result<
    Option<Seq<char>>,
    ErrorView,
> {
    match read {
        Ok(body) => Ok(Some(body)),
        Err(ErrorView::MetaFileNotFound(_)) => Ok(None),
        Err(e) => Err(e),
    }
}

/// Reads a metafile that holds one text, such as the user of a service.
pub fn parse_single(read: Result<String, Error>) -> (r: Result<Option<String>, Error>)
    ensures
        model(r) == single_of(read_view(read)),
{
    match read {
        Ok(body) => Ok(Some(body)),
        Err(Error::MetaFileNotFound(_)) => Ok(None),
        Err(e) => Err(e),
    }
}

/// The kind of a package, from its metafile. A package without the
/// metafile stands alone.
pub open spec fn pkg_type_of(read: Result<Seq<char>, ErrorView>) -> Result<
    PackageType,
    ErrorView,
> {
    match read {
        Ok(body) => parse_package_type(body),
        Err(ErrorView::MetaFileNotFound(_)) => Ok(PackageType::Standalone),
        Err(e) => Err(e),
    }
}

/// Reads the kind of a package.
pub fn parse_pkg_type(read: Result<String, Error>) -> (r: Result<PackageType, Error>)
    ensures
        model(r) == pkg_type_of(read_view(read)),
{
    match read {
        Ok(body) => PackageType::from_str(body.as_str()),
        Err(Error::MetaFileNotFound(_)) => Ok(PackageType::Standalone),
        Err(e) => Err(e),
    }
}

} // verus!

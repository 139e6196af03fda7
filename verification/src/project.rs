//! Which packages of a Cargo workspace the editor indexes for components,
//! and where an application keeps its Copper configuration.
use vstd::prelude::*;

use std::path::PathBuf;

use crate::outside::{path_copy, path_from, path_join};
use crate::text::{
    chars_of, contains_exec, contains_seq, first_occurrence, lemma_first_occurrence, occurs_at, push_range, replace_all,
    replace_exec, skip_spaces, lemma_skip_spaces, str_eq, string_of,
};

verus! {

/// Why a project could not be opened.
#[derive(Debug)]
pub enum ProjectError {
    /// No `Cargo.toml` in or above the path.
    ManifestNotFound(PathBuf),
    /// A file could not be read.
    Read { path: PathBuf, source: std::io::Error },
    /// A manifest is not valid, or names no application.
    Manifest { path: PathBuf, message: String },
}

/// A package whose sources are indexed.
#[derive(Debug)]
pub struct SourcePackage {
    pub package_name: String,
    pub crate_name: String,
    pub manifest_path: PathBuf,
    pub source_root: PathBuf,
    /// Available to the application only once it depends on it through the workspace.
    pub workspace_only: bool,
}

/// An opened Copper application.
#[derive(Debug)]
pub struct ProjectInfo {
    pub opened_path: PathBuf,
    pub app_manifest: PathBuf,
    pub workspace_manifest: PathBuf,
    pub package_name: String,
    pub config_path: PathBuf,
    pub source_packages: Vec<SourcePackage>,
    /// The names under which the application uses its normal dependencies, each once.
    pub direct_dependencies: Vec<String>,
    /// The workspace's path dependencies by name, sorted by name.
    pub workspace_dependencies: Vec<(String, PathBuf)>,
    pub metadata_warning: Option<String>,
}

// ---------------------------------------------------------------------------
// The configuration an application names
// ---------------------------------------------------------------------------

/// What follows a `config` at index `r`: `= "path"`, with whitespace
/// allowed around the `=`, gives the path up to the next quote.
pub open spec fn config_value_at(s: Seq<char>, r: int) -> Option<Seq<char>> {
    let t = skip_spaces(s, r);
    if 0 <= t < s.len() && s[t] == '=' {
        let a = skip_spaces(s, t + 1);
        if 0 <= a < s.len() && s[a] == '"' {
            match first_occurrence(s, "\""@, a + 1) {
                Some(e) => Some(s.subrange(a + 1, e)),
                None => None,
            }
        } else {
            None
        }
    } else {
        None
    }
}

/// The value of the first `config = "..."` at or after index `p`.
pub open spec fn config_attribute_from(s: Seq<char>, p: int) -> Option<Seq<char>>
    decreases s.len() - p,
{
    if p < 0 || p > s.len() {
        None
    } else {
        match first_occurrence(s, "config"@, p) {
            None => None,
            Some(i) => {
                if i + 6 > s.len() || i < p {
                    None
                } else {
                    match config_value_at(s, i + 6) {
                        Some(v) => Some(v),
                        None => config_attribute_from(s, i + 6),
                    }
                }
            },
        }
    }
}

fn skip_spaces_exec(s: &[char], i: usize) -> (r: usize)
    requires
        i <= s@.len(),
    ensures
        r == skip_spaces(s@, i as int),
        i <= r <= s@.len(),
{
    proof {
        lemma_skip_spaces(s@, i as int);
    }
    let mut k = i;
    while k < s.len() && crate::text::space(s[k])
        invariant
            i <= k <= s@.len(),
            skip_spaces(s@, k as int) == skip_spaces(s@, i as int),
        decreases s.len() - k,
    {
        k = k + 1;
    }
    k
}

/// The configuration file named by a runtime attribute in the first of the
/// sources that has one (see [`config_attribute_from`]).
pub open spec fn first_config_attribute(sources: Seq<Seq<char>>) -> Option<Seq<char>>
    decreases sources.len(),
{
    if sources.len() == 0 {
        None
    } else {
        match config_attribute_from(sources[0], 0) {
            Some(file) => Some(file),
            None => first_config_attribute(sources.drop_first()),
        }
    }
}

/// Which configuration an application uses, relative to its directory: `None`
/// for `copperconfig.ron` where that file exists; otherwise the file named by
/// a runtime attribute in the first of the sources (in the order they are
/// walked) that has one; `None` again where none has.
pub fn config_file_choice(default_exists: bool, sources: &Vec<String>) -> (r: Option<String>)
    ensures
        r.deep_view() == (if default_exists { None } else { first_config_attribute(sources.deep_view()) }),
{
    if default_exists {
        return None;
    }
    let ghost all = sources.deep_view();
    let mut i: usize = 0;
    assert(all.skip(0) =~= all);
    while i < sources.len()
        invariant
            i <= sources@.len(),
            all == sources.deep_view(),
            !default_exists,
            first_config_attribute(all) == first_config_attribute(all.skip(i as int)),
        decreases sources.len() - i,
    {
        assert(all.skip(i as int)[0] == sources@[i as int]@);
        assert(all.skip(i as int).drop_first() =~= all.skip(i + 1));
        let found = extract_config_attribute(sources[i].as_str());
        if found.is_some() {
            assert(all.skip(i as int).len() > 0);
            assert(config_attribute_from(all.skip(i as int)[0], 0) == found.deep_view());
            assert(first_config_attribute(all.skip(i as int)) == found.deep_view());
            return found;
        }
        i = i + 1;
    }
    None
}

/// The configuration file an attribute such as
/// `#[copper_runtime(config = "copperconfig.ron")]` names (see [`config_attribute_from`]).
pub fn extract_config_attribute(source: &str) -> (r: Option<String>)
    ensures
        r.deep_view() == config_attribute_from(source@, 0),
{
    let s = chars_of(source);
    let marker = chars_of("config");
    let quote = chars_of("\"");
    proof {
        reveal_strlit("config");
        reveal_strlit("\"");
    }
    let mut p: usize = 0;
    while p <= s.len()
        invariant
            s@ == source@,
            marker@ == "config"@,
            quote@ == "\""@,
            marker@.len() == 6,
            quote@.len() == 1,
            p <= s@.len() + 1,
            p <= s@.len() ==> config_attribute_from(s@, p as int) == config_attribute_from(s@, 0),
            p > s@.len() ==> config_attribute_from(s@, 0) is None,
        decreases s.len() + 1 - p,
    {
        proof {
            lemma_first_occurrence(s@, marker@, p as int);
        }
        let i = match crate::text::find_from(s.as_slice(), marker.as_slice(), p) {
            Some(i) => i,
            None => return None,
        };
        assert(occurs_at(s@, i as int, marker@));
        let r = i + 6;
        let t = skip_spaces_exec(s.as_slice(), r);
        if t < s.len() && s[t] == '=' {
            let a = skip_spaces_exec(s.as_slice(), t + 1);
            if a < s.len() && s[a] == '"' {
                proof {
                    lemma_first_occurrence(s@, quote@, a + 1);
                }
                match crate::text::find_from(s.as_slice(), quote.as_slice(), a + 1) {
                    Some(e) => {
                        assert(occurs_at(s@, e as int, quote@));
                        let mut v: Vec<char> = Vec::new();
                        push_range(&mut v, s.as_slice(), a + 1, e);
                        return Some(string_of(v.as_slice()));
                    },
                    None => {},
                }
            }
        }
        p = r;
    }
    None
}

// ---------------------------------------------------------------------------
// Packages of the workspace
// ---------------------------------------------------------------------------

/// A dependency of a package, as Cargo's metadata lists it.
#[derive(Debug)]
pub struct DependencyInfo {
    pub name: String,
    pub rename: Option<String>,
    /// A normal dependency (not a dev or build dependency).
    pub normal: bool,
}

/// The library target of a package.
#[derive(Debug)]
pub struct LibraryTarget {
    pub name: String,
    /// The directory of the target's root source file.
    pub source_dir: Option<PathBuf>,
}

/// A package of Cargo's metadata, with what the file system said of it.
#[derive(Debug)]
pub struct PackageInfo {
    pub id: String,
    pub name: String,
    pub manifest_path: PathBuf,
    /// The directory of the manifest.
    pub root: Option<PathBuf>,
    pub library: Option<LibraryTarget>,
    pub dependencies: Vec<DependencyInfo>,
    /// Its manifest is the one the project was opened with.
    pub is_requested: bool,
    pub workspace_member: bool,
    /// A `copperconfig.ron` lies beside its manifest.
    pub has_config_file: bool,
    /// It is the workspace's root package.
    pub is_root: bool,
}

/// A name with `-` written as `_`, as crates are named in Rust code.
pub open spec fn underscored(s: Seq<char>) -> Seq<char> {
    replace_all(s, "-"@, "_"@)
}

pub fn underscore(s: &str) -> (r: String)
    ensures
        r@ == underscored(s@),
{
    let c = chars_of(s);
    let dash = chars_of("-");
    let under = chars_of("_");
    proof {
        reveal_strlit("-");
    }
    let r = replace_exec(c.as_slice(), dash.as_slice(), under.as_slice());
    string_of(r.as_slice())
}

/// The first package at or after `k` that satisfies the choice `which`: the
/// requested one (0), a workspace member with a configuration (1), the root (2).
pub open spec fn first_package(packages: Seq<PackageInfo>, which: int, k: int) -> Option<int>
    decreases packages.len() - k,
{
    if k < 0 || k >= packages.len() {
        None
    } else if (which == 0 && packages[k].is_requested) || (which == 1 && packages[k].workspace_member
        && packages[k].has_config_file) || (which == 2 && packages[k].is_root) {
        Some(k)
    } else {
        first_package(packages, which, k + 1)
    }
}

/// The application: the package whose manifest was opened, else the first
/// workspace member with a configuration, else the root package.
pub open spec fn chosen_app(packages: Seq<PackageInfo>) -> Option<int> {
    match first_package(packages, 0, 0) {
        Some(i) => Some(i),
        None => match first_package(packages, 1, 0) {
            Some(i) => Some(i),
            None => first_package(packages, 2, 0),
        },
    }
}

proof fn lemma_first_package(packages: Seq<PackageInfo>, which: int, k: int)
    requires
        0 <= k,
    ensures
        first_package(packages, which, k) matches Some(i) ==> k <= i < packages.len(),
    decreases packages.len() - k,
{
    if k < packages.len() && !((which == 0 && packages[k].is_requested) || (which == 1
        && packages[k].workspace_member && packages[k].has_config_file) || (which == 2
        && packages[k].is_root)) {
        lemma_first_package(packages, which, k + 1);
    }
}

fn find_package(packages: &Vec<PackageInfo>, which: u8) -> (r: Option<usize>)
    requires
        which <= 2,
    ensures
        r matches Some(i) ==> i < packages@.len() && first_package(packages@, which as int, 0) == Some(i as int),
        r is None ==> first_package(packages@, which as int, 0) is None,
{
    let mut k: usize = 0;
    while k < packages.len()
        invariant
            k <= packages@.len(),
            first_package(packages@, which as int, k as int) == first_package(packages@, which as int, 0),
        decreases packages.len() - k,
    {
        let p = &packages[k];
        if (which == 0 && p.is_requested) || (which == 1 && p.workspace_member && p.has_config_file) || (
        which == 2 && p.is_root) {
            return Some(k);
        }
        k = k + 1;
    }
    None
}

/// The index of the application package (see [`chosen_app`]).
pub fn choose_app_package(packages: &Vec<PackageInfo>) -> (r: Option<usize>)
    ensures
        r matches Some(i) ==> i < packages@.len() && chosen_app(packages@) == Some(i as int),
        r is None ==> chosen_app(packages@) is None,
{
    match find_package(packages, 0) {
        Some(i) => Some(i),
        None => match find_package(packages, 1) {
            Some(i) => Some(i),
            None => find_package(packages, 2),
        },
    }
}

/// The name a dependency is used under: its rename, else its name with `_` for `-`.
pub open spec fn used_name(d: DependencyInfo) -> Seq<char> {
    match d.rename {
        Some(r) => r@,
        None => underscored(d.name@),
    }
}

/// Adds to a set held as a sequence without repeats.
pub open spec fn set_add(set: Seq<Seq<char>>, x: Seq<char>) -> Seq<Seq<char>> {
    if set.contains(x) {
        set
    } else {
        set.push(x)
    }
}

/// The names under which the first `k` normal dependencies are used, each once.
pub open spec fn direct_names(deps: Seq<DependencyInfo>, k: int) -> Seq<Seq<char>>
    decreases k,
{
    if k <= 0 || k > deps.len() {
        Seq::empty()
    } else {
        let rest = direct_names(deps, k - 1);
        if deps[k - 1].normal {
            set_add(rest, used_name(deps[k - 1]))
        } else {
            rest
        }
    }
}

fn contains_name(v: &Vec<String>, x: &str) -> (r: bool)
    ensures
        r == v.deep_view().contains(x@),
{
    let mut i: usize = 0;
    while i < v.len()
        invariant
            i <= v@.len(),
            forall|j: int| 0 <= j < i ==> v.deep_view()[j] != x@,
        decreases v.len() - i,
    {
        if str_eq(v[i].as_str(), x) {
            assert(v.deep_view()[i as int] == x@);
            return true;
        }
        i = i + 1;
    }
    false
}

/// The names under which a package uses its normal dependencies (see [`direct_names`]).
pub fn direct_dependency_names(package: &PackageInfo) -> (r: Vec<String>)
    ensures
        r.deep_view() == direct_names(package.dependencies@, package.dependencies@.len() as int),
{
    let deps = &package.dependencies;
    let mut out: Vec<String> = Vec::new();
    let mut k: usize = 0;
    while k < deps.len()
        invariant
            k <= deps@.len(),
            out.deep_view() == direct_names(deps@, k as int),
        decreases deps.len() - k,
    {
        let d = &deps[k];
        if d.normal {
            let name = match &d.rename {
                Some(r) => r.clone(),
                None => underscore(d.name.as_str()),
            };
            if !contains_name(&out, name.as_str()) {
                let ghost before = out.deep_view();
                out.push(name);
                assert(out.deep_view() =~= before.push(used_name(deps@[k as int])));
            }
        }
        k = k + 1;
    }
    out
}

/// What the editor records of a package it indexes.
pub struct SourceModel {
    pub package_name: Seq<char>,
    pub crate_name: Seq<char>,
    pub workspace_only: bool,
}

pub open spec fn source_model(p: SourcePackage) -> SourceModel {
    SourceModel { package_name: p.package_name@, crate_name: p.crate_name@, workspace_only: p.workspace_only }
}

/// The first dependency at or after `k` with this name.
pub open spec fn dependency_named(deps: Seq<DependencyInfo>, name: Seq<char>, k: int) -> Option<int>
    decreases deps.len() - k,
{
    if k < 0 || k >= deps.len() {
        None
    } else if deps[k].name@ == name {
        Some(k)
    } else {
        dependency_named(deps, name, k + 1)
    }
}

/// Whether, and how, a package is indexed: the application itself, the
/// packages it depends on (under the name it uses them by), and the
/// workspace's path dependencies it could start to use.
pub open spec fn indexed_as(
    p: PackageInfo,
    app: PackageInfo,
    direct: Seq<Seq<char>>,
    workspace_names: Seq<Seq<char>>,
) -> Option<SourceModel> {
    let crate_name = match p.library {
        Some(l) => underscored(l.name@),
        None => underscored(p.name@),
    };
    let is_app = p.id@ == app.id@;
    let dep = dependency_named(app.dependencies@, p.name@, 0);
    let directly = direct.contains(crate_name) || dep is Some;
    let name = match dep {
        Some(j) => match app.dependencies@[j].rename {
            Some(r) => underscored(r@),
            None => crate_name,
        },
        None => crate_name,
    };
    let workspace_only = !is_app && !directly && workspace_names.contains(p.name@);
    if p.root is None {
        None
    } else if is_app || directly || workspace_only {
        Some(SourceModel { package_name: p.name@, crate_name: name, workspace_only })
    } else {
        None
    }
}

/// The indexed packages among the first `k`, in order.
pub open spec fn indexed_packages(
    packages: Seq<PackageInfo>,
    app: PackageInfo,
    direct: Seq<Seq<char>>,
    workspace_names: Seq<Seq<char>>,
    k: int,
) -> Seq<SourceModel>
    decreases k,
{
    if k <= 0 || k > packages.len() {
        Seq::empty()
    } else {
        let rest = indexed_packages(packages, app, direct, workspace_names, k - 1);
        match indexed_as(packages[k - 1], app, direct, workspace_names) {
            Some(m) => rest.push(m),
            None => rest,
        }
    }
}

fn find_dependency(deps: &Vec<DependencyInfo>, name: &str) -> (r: Option<usize>)
    ensures
        r matches Some(i) ==> i < deps@.len() && dependency_named(deps@, name@, 0) == Some(i as int),
        r is None ==> dependency_named(deps@, name@, 0) is None,
{
    let mut k: usize = 0;
    while k < deps.len()
        invariant
            k <= deps@.len(),
            dependency_named(deps@, name@, k as int) == dependency_named(deps@, name@, 0),
        decreases deps.len() - k,
    {
        if str_eq(deps[k].name.as_str(), name) {
            return Some(k);
        }
        k = k + 1;
    }
    None
}

/// The packages to index (see [`indexed_packages`]); `workspace_names` are
/// the names of the workspace's path dependencies.
pub fn source_packages_of(
    packages: &Vec<PackageInfo>,
    app: &PackageInfo,
    direct: &Vec<String>,
    workspace_names: &Vec<String>,
) -> (r: Vec<SourcePackage>)
    ensures
        r@.len() == indexed_packages(packages@, *app, direct.deep_view(), workspace_names.deep_view(), packages@.len() as int).len(),
        forall|i: int| 0 <= i < r@.len() ==> source_model(#[trigger] r@[i]) == indexed_packages(
            packages@,
            *app,
            direct.deep_view(),
            workspace_names.deep_view(),
            packages@.len() as int,
        )[i],
{
    let ghost dv = direct.deep_view();
    let ghost wv = workspace_names.deep_view();
    let mut out: Vec<SourcePackage> = Vec::new();
    let mut k: usize = 0;
    while k < packages.len()
        invariant
            k <= packages@.len(),
            dv == direct.deep_view(),
            wv == workspace_names.deep_view(),
            out@.len() == indexed_packages(packages@, *app, dv, wv, k as int).len(),
            forall|i: int| 0 <= i < out@.len() ==> source_model(#[trigger] out@[i]) == indexed_packages(
                packages@,
                *app,
                dv,
                wv,
                k as int,
            )[i],
        decreases packages.len() - k,
    {
        let p = &packages[k];
        let ghost before = indexed_packages(packages@, *app, dv, wv, k as int);
        let root = match &p.root {
            Some(root) => root,
            None => {
                k = k + 1;
                assert(indexed_packages(packages@, *app, dv, wv, k as int) == before);
                continue;
            },
        };
        let mut crate_name = match &p.library {
            Some(l) => underscore(l.name.as_str()),
            None => underscore(p.name.as_str()),
        };
        let source_root = match &p.library {
            Some(l) => match &l.source_dir {
                Some(d) => path_copy(d),
                None => path_join(root, "src"),
            },
            None => path_join(root, "src"),
        };
        let is_app = str_eq(p.id.as_str(), app.id.as_str());
        let dep = find_dependency(&app.dependencies, p.name.as_str());
        let directly = contains_name(direct, crate_name.as_str()) || dep.is_some();
        match dep {
            Some(j) => match &app.dependencies[j].rename {
                Some(r) => {
                    crate_name = underscore(r.as_str());
                },
                None => {},
            },
            None => {},
        }
        let workspace_only = !is_app && !directly && contains_name(workspace_names, p.name.as_str());
        if is_app || directly || workspace_only {
            out.push(
                SourcePackage {
                    package_name: p.name.clone(),
                    crate_name,
                    manifest_path: path_copy(&p.manifest_path),
                    source_root,
                    workspace_only,
                },
            );
        }
        k = k + 1;
        proof {
            let now = indexed_packages(packages@, *app, dv, wv, k as int);
            assert forall|i: int| 0 <= i < out@.len() implies source_model(#[trigger] out@[i]) == now[i] by {
                if i < before.len() {
                    assert(now[i] == before[i]);
                }
            }
        }
    }
    out
}

/// The names of the packages, in order.
pub open spec fn package_names(packages: Seq<SourcePackage>) -> Seq<Seq<char>> {
    Seq::new(packages.len(), |i: int| packages[i].package_name@)
}

/// The names of a workspace's path dependencies, in order.
pub open spec fn dependency_names(deps: Seq<(String, PathBuf)>) -> Seq<Seq<char>> {
    Seq::new(deps.len(), |i: int| deps[i].0@)
}

/// The workspace's path dependencies among the first `k` that no package
/// (given or added before) has.
pub open spec fn missing_workspace(names: Seq<Seq<char>>, deps: Seq<Seq<char>>, k: int) -> Seq<Seq<char>>
    decreases k,
{
    if k <= 0 || k > deps.len() {
        Seq::empty()
    } else {
        let rest = missing_workspace(names, deps, k - 1);
        if (names + rest).contains(deps[k - 1]) {
            rest
        } else {
            rest.push(deps[k - 1])
        }
    }
}

fn has_package(packages: &Vec<SourcePackage>, name: &str) -> (r: bool)
    ensures
        r == package_names(packages@).contains(name@),
{
    let mut i: usize = 0;
    while i < packages.len()
        invariant
            i <= packages@.len(),
            forall|j: int| 0 <= j < i ==> packages@[j].package_name@ != name@,
        decreases packages.len() - i,
    {
        if str_eq(packages[i].package_name.as_str(), name) {
            assert(package_names(packages@)[i as int] == name@);
            return true;
        }
        i = i + 1;
    }
    assert forall|j: int| 0 <= j < package_names(packages@).len() implies package_names(packages@)[j] != name@ by {}
    false
}

/// Adds each of the workspace's path dependencies that no package stands for
/// yet, as available through the workspace only (`name` with `_` for `-` as
/// its crate, `Cargo.toml` and `src` under its directory).
pub fn add_missing_workspace_sources(
    packages: &mut Vec<SourcePackage>,
    workspace_dependencies: &Vec<(String, PathBuf)>,
)
    ensures
        final(packages)@.len() >= old(packages)@.len(),
        final(packages)@.take(old(packages)@.len() as int) == old(packages)@,
        package_names(final(packages)@.skip(old(packages)@.len() as int)) == missing_workspace(
            package_names(old(packages)@),
            dependency_names(workspace_dependencies@),
            workspace_dependencies@.len() as int,
        ),
        forall|i: int| old(packages)@.len() <= i < final(packages)@.len() ==> (#[trigger] final(packages)@[i]).workspace_only
            && final(packages)@[i].crate_name@ == underscored(final(packages)@[i].package_name@),
{
    let ghost start = packages@;
    let ghost names0 = package_names(start);
    let ghost deps = dependency_names(workspace_dependencies@);
    let n0 = packages.len();
    let mut k: usize = 0;
    assert(packages@.skip(n0 as int) =~= Seq::<SourcePackage>::empty());
    assert(package_names(packages@.skip(n0 as int)) =~= Seq::<Seq<char>>::empty());
    while k < workspace_dependencies.len()
        invariant
            k <= workspace_dependencies@.len(),
            n0 == start.len(),
            packages@.len() >= n0,
            packages@.take(n0 as int) == start,
            names0 == package_names(start),
            deps == dependency_names(workspace_dependencies@),
            package_names(packages@.skip(n0 as int)) == missing_workspace(names0, deps, k as int),
            forall|i: int| n0 <= i < packages@.len() ==> (#[trigger] packages@[i]).workspace_only
                && packages@[i].crate_name@ == underscored(packages@[i].package_name@),
        decreases workspace_dependencies.len() - k,
    {
        let name = &workspace_dependencies[k].0;
        let root = &workspace_dependencies[k].1;
        assert(deps[k as int] == name@);
        let present = has_package(packages, name.as_str());
        assert(package_names(packages@) =~= names0 + package_names(packages@.skip(n0 as int))) by {
            assert(packages@ =~= start + packages@.skip(n0 as int));
        }
        if !present {
            let ghost before = packages@;
            packages.push(
                SourcePackage {
                    package_name: name.clone(),
                    crate_name: underscore(name.as_str()),
                    manifest_path: path_join(root, "Cargo.toml"),
                    source_root: path_join(root, "src"),
                    workspace_only: true,
                },
            );
            assert(packages@.take(n0 as int) =~= before.take(n0 as int));
            assert(packages@.skip(n0 as int) =~= before.skip(n0 as int).push(packages@.last()));
            assert(package_names(packages@.skip(n0 as int)) =~= package_names(before.skip(n0 as int)).push(name@));
        }
        k = k + 1;
    }
}


/// What Cargo's metadata says of a workspace.
#[derive(Debug)]
pub struct MetadataInfo {
    pub workspace_root: PathBuf,
    pub packages: Vec<PackageInfo>,
}

/// The message when the metadata names no application.
pub open spec fn no_application_text() -> Seq<char> {
    "Cargo metadata did not contain an application package"@
}

/// The packages of a project: first those indexed (as `indexed` records
/// them), then the workspace's path dependencies that none of them is, each
/// available through the workspace only and named as its crate with `_` for `-`.
pub open spec fn sources_follow(packages: Seq<SourcePackage>, indexed: Seq<SourceModel>, ws: Seq<(String, PathBuf)>) -> bool {
    let n = indexed.len() as int;
    &&& packages.len() >= n
    &&& forall|i: int| 0 <= i < n ==> source_model(#[trigger] packages[i]) == indexed[i]
    &&& package_names(packages.skip(n)) == missing_workspace(
        package_names(packages.take(n)),
        dependency_names(ws),
        ws.len() as int,
    )
    &&& forall|i: int| n <= i < packages.len() ==> (#[trigger] packages[i]).workspace_only
        && packages[i].crate_name@ == underscored(packages[i].package_name@)
}

impl ProjectInfo {
    /// The project that Cargo's metadata describes: the application (see
    /// [`chosen_app`]) with its direct dependencies, the packages to index
    /// (see [`indexed_packages`]) followed by the workspace's path
    /// dependencies not among them, and the configuration beside its
    /// manifest. `workspace_dependencies` is what reading the workspace
    /// manifest gave; its error is passed on once an application is found.
    pub fn from_metadata(
        opened_path: PathBuf,
        requested_manifest: PathBuf,
        metadata: MetadataInfo,
        workspace_dependencies: Result<Vec<(String, PathBuf)>, ProjectError>,
    ) -> (r: Result<ProjectInfo, ProjectError>)
        ensures
            chosen_app(metadata.packages@) is None ==> (r matches Err(ProjectError::Manifest { path, message })
                && path == requested_manifest && message@ == no_application_text()),
            chosen_app(metadata.packages@) is Some && workspace_dependencies is Err ==> (r matches Err(e)
                && e == workspace_dependencies->Err_0),
            match chosen_app(metadata.packages@) {
                None => true,
                Some(a) => workspace_dependencies is Ok ==> (r matches Ok(info)
                && info.opened_path == opened_path
                && info.app_manifest == metadata.packages@[a].manifest_path
                && info.package_name@ == metadata.packages@[a].name@
                && info.direct_dependencies.deep_view() == direct_names(
                    metadata.packages@[a].dependencies@,
                    metadata.packages@[a].dependencies@.len() as int,
                )
                && info.workspace_dependencies@ == workspace_dependencies->Ok_0@
                && info.metadata_warning is None
                && sources_follow(
                    info.source_packages@,
                    indexed_packages(
                        metadata.packages@,
                        metadata.packages@[a],
                        info.direct_dependencies.deep_view(),
                        dependency_names(workspace_dependencies->Ok_0@),
                        metadata.packages@.len() as int,
                    ),
                    workspace_dependencies->Ok_0@,
                )),
            },
    {
        let app_index = match choose_app_package(&metadata.packages) {
            Some(a) => a,
            None => {
                proof {
                    reveal_strlit("Cargo metadata did not contain an application package");
                }
                return Err(
                    ProjectError::Manifest {
                        path: requested_manifest,
                        message: "Cargo metadata did not contain an application package".to_owned(),
                    },
                );
            },
        };
        let workspace_dependencies = match workspace_dependencies {
            Ok(d) => d,
            Err(e) => return Err(e),
        };
        let app = &metadata.packages[app_index];
        let workspace_manifest = path_join(&metadata.workspace_root, "Cargo.toml");
        let app_manifest = path_copy(&app.manifest_path);
        let app_dir = match &app.root {
            Some(root) => path_copy(root),
            None => path_from("."),
        };
        let direct_dependencies = direct_dependency_names(app);
        let mut workspace_names: Vec<String> = Vec::new();
        let mut k: usize = 0;
        while k < workspace_dependencies.len()
            invariant
                k <= workspace_dependencies@.len(),
                workspace_names.deep_view() =~= dependency_names(workspace_dependencies@.take(k as int)),
            decreases workspace_dependencies.len() - k,
        {
            let ghost before = workspace_names.deep_view();
            workspace_names.push(workspace_dependencies[k].0.clone());
            assert(workspace_names.deep_view() =~= before.push(workspace_dependencies@[k as int].0@));
            assert(dependency_names(workspace_dependencies@.take(k + 1)) =~= dependency_names(
                workspace_dependencies@.take(k as int),
            ).push(workspace_dependencies@[k as int].0@));
            k = k + 1;
        }
        let mut source_packages = source_packages_of(&metadata.packages, app, &direct_dependencies, &workspace_names);
        let ghost indexed = source_packages@;
        add_missing_workspace_sources(&mut source_packages, &workspace_dependencies);
        proof {
            assert forall|i: int| 0 <= i < indexed.len() implies source_packages@[i] == indexed[i] by {
                assert(source_packages@.take(indexed.len() as int)[i] == source_packages@[i]);
            }
        }
        let config_path = path_join(&app_dir, "copperconfig.ron");
        assert(*app == metadata.packages@[app_index as int]);
        assert(workspace_dependencies@.take(workspace_dependencies@.len() as int) =~= workspace_dependencies@);
        assert(workspace_names.deep_view() == dependency_names(workspace_dependencies@));
        assert(indexed.len() == indexed_packages(
            metadata.packages@,
            metadata.packages@[app_index as int],
            direct_dependencies.deep_view(),
            dependency_names(workspace_dependencies@),
            metadata.packages@.len() as int,
        ).len());
        let info = ProjectInfo {
            opened_path,
            app_manifest,
            workspace_manifest,
            package_name: app.name.clone(),
            config_path,
            source_packages,
            direct_dependencies,
            workspace_dependencies,
            metadata_warning: None,
        };
        assert(info.app_manifest == metadata.packages@[app_index as int].manifest_path);
        assert(info.package_name@ == metadata.packages@[app_index as int].name@);
        assert(info.source_packages@.len() >= indexed.len());
        let ghost expected = indexed_packages(
            metadata.packages@,
            metadata.packages@[app_index as int],
            info.direct_dependencies.deep_view(),
            dependency_names(info.workspace_dependencies@),
            metadata.packages@.len() as int,
        );
        assert forall|i: int| 0 <= i < indexed.len() implies source_model(#[trigger] info.source_packages@[i]) == expected[i] by {
            assert(info.source_packages@[i] == indexed[i]);
            assert(source_model(indexed[i]) == expected[i]);
        }
        Ok(info)
    }
}


/// The first candidate manifest that is a file, if any.
pub open spec fn first_manifest(candidates: Seq<(PathBuf, bool)>, k: int) -> Option<int>
    decreases candidates.len() - k,
{
    if k < 0 || k >= candidates.len() {
        None
    } else if candidates[k].1 {
        Some(k)
    } else {
        first_manifest(candidates, k + 1)
    }
}

/// The manifest of the package a path belongs to: of the `Cargo.toml` files
/// in its directory and each directory above (`candidates`, nearest first,
/// each with whether it is a file), the nearest that exists.
pub fn find_manifest(path: &PathBuf, candidates: &Vec<(PathBuf, bool)>) -> (r: Result<PathBuf, ProjectError>)
    ensures
        match first_manifest(candidates@, 0) {
            Some(i) => r matches Ok(m) && m == candidates@[i].0,
            None => r matches Err(ProjectError::ManifestNotFound(p)) && p == *path,
        },
{
    let mut k: usize = 0;
    while k < candidates.len()
        invariant
            k <= candidates@.len(),
            first_manifest(candidates@, k as int) == first_manifest(candidates@, 0),
        decreases candidates.len() - k,
    {
        if candidates[k].1 {
            return Ok(path_copy(&candidates[k].0));
        }
        k = k + 1;
    }
    Err(ProjectError::ManifestNotFound(path_copy(path)))
}


/// The workspace manifest: of the manifests in the directory of the
/// application's manifest and each directory above (`candidates`, nearest
/// first, each with its text where it could be read), the outermost whose
/// text declares `[workspace]`; the application's manifest where none does.
pub open spec fn outermost_workspace(app_manifest: PathBuf, candidates: Seq<(PathBuf, Option<String>)>, k: int) -> PathBuf
    decreases k,
{
    if k <= 0 || k > candidates.len() {
        app_manifest
    } else if declares_workspace(candidates[k - 1]) {
        candidates[k - 1].0
    } else {
        outermost_workspace(app_manifest, candidates, k - 1)
    }
}

/// A manifest whose text could be read and declares `[workspace]`.
pub open spec fn declares_workspace(candidate: (PathBuf, Option<String>)) -> bool {
    candidate.1 matches Some(text) && contains_seq(text@, "[workspace]"@)
}

/// The workspace manifest (see [`outermost_workspace`]).
pub fn select_workspace_manifest(app_manifest: &PathBuf, candidates: &Vec<(PathBuf, Option<String>)>) -> (r: PathBuf)
    ensures
        r == outermost_workspace(*app_manifest, candidates@, candidates@.len() as int),
{
    let marker = chars_of("[workspace]");
    proof {
        reveal_strlit("[workspace]");
    }
    let mut k = candidates.len();
    while k > 0
        invariant
            k <= candidates@.len(),
            marker@ == "[workspace]"@,
            marker@.len() == 11,
            forall|j: int| k <= j < candidates@.len() ==> !declares_workspace(#[trigger] candidates@[j]),
        decreases k,
    {
        let (manifest, text) = (&candidates[k - 1].0, &candidates[k - 1].1);
        match text {
            Some(t) => {
                let c = chars_of(t.as_str());
                if contains_exec(c.as_slice(), marker.as_slice()) {
                    proof {
                        lemma_outermost_is_last_declaring(*app_manifest, candidates@, candidates@.len() as int, k as int);
                    }
                    return path_copy(manifest);
                }
            },
            None => {},
        }
        k = k - 1;
    }
    proof {
        lemma_outermost_is_last_declaring(*app_manifest, candidates@, candidates@.len() as int, 0);
    }
    path_copy(app_manifest)
}

proof fn lemma_outermost_is_last_declaring(app_manifest: PathBuf, candidates: Seq<(PathBuf, Option<String>)>, n: int, k: int)
    requires
        0 <= k <= n <= candidates.len(),
        forall|j: int| k <= j < n ==> !declares_workspace(#[trigger] candidates[j]),
    ensures
        outermost_workspace(app_manifest, candidates, n) == outermost_workspace(app_manifest, candidates, k),
    decreases n - k,
{
    if n > k {
        lemma_outermost_is_last_declaring(app_manifest, candidates, n - 1, k);
    }
}

/// What an application's manifest says that matters here.
#[derive(Debug)]
pub struct ManifestInfo {
    /// `package.name`, where it is a string.
    pub package_name: Option<String>,
    /// The keys of its `[dependencies]` table, in order.
    pub dependencies: Vec<String>,
    /// The dependencies of that table given by `path`, with the path as written.
    pub path_dependencies: Vec<(String, String)>,
}

/// A path dependency of the workspace, with whether its directory exists.
#[derive(Debug)]
pub struct WorkspaceDependency {
    pub name: String,
    pub root: PathBuf,
    pub exists: bool,
}

/// What is recorded of the packages indexed without Cargo's metadata: the
/// application (named `copper_app` where its manifest names none), the
/// workspace's path dependencies that it uses or that exist (available through
/// the workspace only where it does not use them), then its own path dependencies.
pub open spec fn manifest_packages(app: ManifestInfo, deps: Seq<WorkspaceDependency>) -> Seq<SourceModel> {
    let name = match app.package_name {
        Some(n) => n@,
        None => "copper_app"@,
    };
    let direct = app.dependencies.deep_view();
    seq![SourceModel { package_name: name, crate_name: underscored(name), workspace_only: false }]
        + workspace_models(direct, deps, deps.len() as int) + Seq::new(
        app.path_dependencies@.len(),
        |i: int|
            SourceModel {
                package_name: app.path_dependencies@[i].0@,
                crate_name: underscored(app.path_dependencies@[i].0@),
                workspace_only: false,
            },
    )
}

pub open spec fn workspace_models(direct: Seq<Seq<char>>, deps: Seq<WorkspaceDependency>, k: int) -> Seq<SourceModel>
    decreases k,
{
    if k <= 0 || k > deps.len() {
        Seq::empty()
    } else {
        let rest = workspace_models(direct, deps, k - 1);
        let d = deps[k - 1];
        if direct.contains(d.name@) || d.exists {
            rest.push(SourceModel { package_name: d.name@, crate_name: underscored(d.name@), workspace_only: !direct.contains(d.name@) })
        } else {
            rest
        }
    }
}

impl ProjectInfo {
    /// Points `config_path` at the configuration chosen by
    /// [`config_file_choice`]: that file in `app_dir`, or `copperconfig.ron`
    /// there where none was chosen. Nothing else changes.
    pub fn use_config_file(&mut self, app_dir: &PathBuf, choice: &Option<String>)
        ensures
            final(self).opened_path == old(self).opened_path,
            final(self).app_manifest == old(self).app_manifest,
            final(self).workspace_manifest == old(self).workspace_manifest,
            final(self).package_name == old(self).package_name,
            final(self).source_packages == old(self).source_packages,
            final(self).direct_dependencies == old(self).direct_dependencies,
            final(self).workspace_dependencies == old(self).workspace_dependencies,
            final(self).metadata_warning == old(self).metadata_warning,
    {
        self.config_path = match choice {
            Some(file) => path_join(app_dir, file.as_str()),
            None => path_join(app_dir, "copperconfig.ron"),
        };
    }
}

impl ProjectInfo {
    /// The project as its manifests describe it, where Cargo's metadata could
    /// not be had (`metadata_warning` says why): see [`manifest_packages`].
    /// `app_dir` is the directory of the application's manifest and
    /// `workspace_dependencies` what reading the workspace manifest gave, whose
    /// error is passed on.
    pub fn from_manifests(
        opened_path: PathBuf,
        app_manifest: PathBuf,
        app_dir: PathBuf,
        metadata_warning: Option<String>,
        app: ManifestInfo,
        workspace_manifest: PathBuf,
        workspace_dependencies: Result<Vec<WorkspaceDependency>, ProjectError>,
    ) -> (r: Result<ProjectInfo, ProjectError>)
        ensures
            workspace_dependencies is Err ==> (r matches Err(e) && e == workspace_dependencies->Err_0),
            workspace_dependencies matches Ok(deps) ==> (r matches Ok(info)
                && info.opened_path == opened_path
                && info.app_manifest == app_manifest
                && info.workspace_manifest == workspace_manifest
                && info.package_name@ == (match app.package_name {
                    Some(n) => n@,
                    None => "copper_app"@,
                })
                && info.direct_dependencies.deep_view() == app.dependencies.deep_view()
                && info.metadata_warning == metadata_warning
                && info.source_packages@.len() == manifest_packages(app, deps@).len()
                && forall|i: int| 0 <= i < info.source_packages@.len() ==> source_model(#[trigger] info.source_packages@[i])
                    == manifest_packages(app, deps@)[i]),
    {
        let deps = match workspace_dependencies {
            Ok(d) => d,
            Err(e) => return Err(e),
        };
        proof {
            reveal_strlit("copper_app");
        }
        let package_name = match &app.package_name {
            Some(n) => n.clone(),
            None => "copper_app".to_owned(),
        };
        let ghost direct = app.dependencies.deep_view();
        let mut source_packages: Vec<SourcePackage> = Vec::new();
        source_packages.push(
            SourcePackage {
                package_name: package_name.clone(),
                crate_name: underscore(package_name.as_str()),
                manifest_path: path_copy(&app_manifest),
                source_root: path_join(&app_dir, "src"),
                workspace_only: false,
            },
        );
        let ghost first = seq![SourceModel { package_name: package_name@, crate_name: underscored(package_name@), workspace_only: false }];
        assert(source_model(source_packages@[0]) == first[0]);
        let mut k: usize = 0;
        while k < deps.len()
            invariant
                k <= deps@.len(),
                direct == app.dependencies.deep_view(),
                first.len() == 1,
                source_packages@.len() == 1 + workspace_models(direct, deps@, k as int).len(),
                forall|i: int| 0 <= i < source_packages@.len() ==> source_model(#[trigger] source_packages@[i])
                    == (first + workspace_models(direct, deps@, k as int))[i],
            decreases deps.len() - k,
        {
            let d = &deps[k];
            let used = contains_name(&app.dependencies, d.name.as_str());
            let ghost before = first + workspace_models(direct, deps@, k as int);
            let ghost sp0 = source_packages@;
            if used || d.exists {
                source_packages.push(
                    SourcePackage {
                        package_name: d.name.clone(),
                        crate_name: underscore(d.name.as_str()),
                        manifest_path: path_join(&d.root, "Cargo.toml"),
                        source_root: path_join(&d.root, "src"),
                        workspace_only: !used,
                    },
                );
            }
            k = k + 1;
            proof {
                let ws0 = workspace_models(direct, deps@, k - 1);
                let ws1 = workspace_models(direct, deps@, k as int);
                let m = SourceModel { package_name: d.name@, crate_name: underscored(d.name@), workspace_only: !used };
                assert(deps@[k - 1] == *d);
                let now = first + ws1;
                if used || d.exists {
                    assert(ws1 == ws0.push(m));
                    assert(now =~= before.push(m));
                } else {
                    assert(ws1 == ws0);
                }
                assert forall|i: int| 0 <= i < source_packages@.len() implies source_model(#[trigger] source_packages@[i]) == now[i] by {
                    if i < before.len() {
                        assert(now[i] == before[i]);
                        assert(source_packages@[i] == sp0[i]);
                        assert(source_model(sp0[i]) == before[i]);
                    }
                }
            }
        }
        let ghost mid = first + workspace_models(direct, deps@, deps@.len() as int);
        let mut j: usize = 0;
        while j < app.path_dependencies.len()
            invariant
                j <= app.path_dependencies@.len(),
                mid.len() + j == source_packages@.len(),
                forall|i: int| 0 <= i < source_packages@.len() ==> source_model(#[trigger] source_packages@[i]) == (mid
                    + Seq::new(
                    j as nat,
                    |q: int|
                        SourceModel {
                            package_name: app.path_dependencies@[q].0@,
                            crate_name: underscored(app.path_dependencies@[q].0@),
                            workspace_only: false,
                        },
                ))[i],
            decreases app.path_dependencies.len() - j,
        {
            let (name, relative) = (&app.path_dependencies[j].0, &app.path_dependencies[j].1);
            let root = path_join(&app_dir, relative.as_str());
            source_packages.push(
                SourcePackage {
                    package_name: name.clone(),
                    crate_name: underscore(name.as_str()),
                    manifest_path: path_join(&root, "Cargo.toml"),
                    source_root: path_join(&root, "src"),
                    workspace_only: false,
                },
            );
            j = j + 1;
        }
        assert(manifest_packages(app, deps@) =~= mid + Seq::new(
            app.path_dependencies@.len(),
            |q: int|
                SourceModel {
                    package_name: app.path_dependencies@[q].0@,
                    crate_name: underscored(app.path_dependencies@[q].0@),
                    workspace_only: false,
                },
        ));
        let mut workspace_dependencies: Vec<(String, PathBuf)> = Vec::new();
        let mut k: usize = 0;
        while k < deps.len()
            invariant
                k <= deps@.len(),
            decreases deps.len() - k,
        {
            workspace_dependencies.push((deps[k].name.clone(), path_copy(&deps[k].root)));
            k = k + 1;
        }
        let config_path = path_join(&app_dir, "copperconfig.ron");
        let direct_dependencies = clone_strings_of(&app.dependencies);
        Ok(
            ProjectInfo {
                opened_path,
                app_manifest,
                workspace_manifest,
                package_name,
                config_path,
                source_packages,
                direct_dependencies,
                workspace_dependencies,
                metadata_warning,
            },
        )
    }
}

fn clone_strings_of(v: &Vec<String>) -> (r: Vec<String>)
    ensures
        r.deep_view() == v.deep_view(),
{
    crate::shapes::clone_strings(v)
}

} // verus!

use vstd::prelude::*;

use crate::dependency::{
    dep_views, name_end, normalize, render_dep, version_end, CompareOp, DepView, Dependency,
    Specifier, SpecifierView,
};
use crate::error::Error;

verus! {

/// The requirement that records a package at its exact installed version.
pub open spec fn pinned_dep(p: PackageView) -> DepView {
    DepView {
        name: p.name,
        extras: Seq::empty(),
        specifier: SpecifierView::Version { op: CompareOp::Equal, version: p.version },
    }
}

/// Options handed through to the package installer as extra command
/// arguments.
pub struct InstallOptions {
    pub values: Option<Vec<String>>,
}

/// A package reported installed in the Python environment: its name and the
/// exact installed version, as the environment lists it.
#[derive(Debug)]
pub struct Package {
    pub name: String,
    pub version: String,
}

#[verifier::ext_equal]
pub struct PackageView {
    pub name: Seq<char>,
    pub version: Seq<char>,
}

impl View for Package {
    type V = PackageView;

    open spec fn view(&self) -> PackageView {
        PackageView { name: self.name@, version: self.version@ }
    }
}

/// The views of a listed package set.
pub open spec fn package_views(s: Seq<Package>) -> Seq<PackageView> {
    s.map_values(|p: Package| p@)
}

/// What parsing an installed-package line `name==version` yields.
pub open spec fn parse_package(s: Seq<char>) -> Result<PackageView, Error> {
    let ne = name_end(s, 0);
    if ne == 0 {
        Err(Error::MalformedPackage)
    } else if !(ne + 2 <= s.len() && s[ne] == '=' && s[ne + 1] == '=') {
        Err(Error::MalformedPackage)
    } else if ne + 2 < s.len() && version_end(s, ne + 2) == s.len() {
        Ok(PackageView { name: s.subrange(0, ne), version: s.subrange(ne + 2, s.len() as int) })
    } else {
        Err(Error::MalformedPackage)
    }
}

/// The view of a package parse result.
pub open spec fn package_result_view(r: Result<Package, Error>) -> Result<PackageView, Error> {
    match r {
        Ok(p) => Ok(p@),
        Err(e) => Err(e),
    }
}

impl Package {
    /// Reads one line of the environment's package listing, written
    /// `name==version`.
    #[verifier::loop_isolation(false)]
    pub fn parse(s: &str) -> (r: Result<Package, Error>)
        ensures
            package_result_view(r) == parse_package(s@),
    {
        let n: usize = s.unicode_len();
        let mut i: usize = 0;
        while i < n && crate::dependency::name_char(s.get_char(i))
            invariant
                0 <= i <= n,
                name_end(s@, 0) == name_end(s@, i as int),
            decreases n - i,
        {
            i += 1;
        }
        proof {
            assert(name_end(s@, i as int) == i);
        }
        if i == 0 {
            return Err(Error::MalformedPackage);
        }
        let has_sep = i < n && s.get_char(i) == '=' && i + 1 < n && s.get_char(i + 1) == '=';
        if !has_sep {
            return Err(Error::MalformedPackage);
        }
        let v: usize = i + 2;
        if v == n {
            return Err(Error::MalformedPackage);
        }
        let mut w: usize = v;
        while w < n && crate::dependency::version_char(s.get_char(w))
            invariant
                v <= w <= n,
                version_end(s@, v as int) == version_end(s@, w as int),
            decreases n - w,
        {
            w += 1;
        }
        proof {
            assert(version_end(s@, w as int) == w);
        }
        if w != n {
            return Err(Error::MalformedPackage);
        }
        Ok(
            Package {
                name: String::from_str(s.substring_char(0, i)),
                version: String::from_str(s.substring_char(v, n)),
            },
        )
    }

    /// The requirement that pins this package at its installed version.
    pub fn to_dependency(&self) -> (d: Dependency)
        ensures
            d@ == pinned_dep(self@),
    {
        let d = Dependency {
            name: self.name.clone(),
            extras: Vec::new(),
            specifier: Specifier::Version { op: CompareOp::Equal, version: self.version.clone() },
        };
        proof {
            assert(d@ =~= pinned_dep(self@));
        }
        d
    }
}

// ---------------------------------------------------------------------------
// Containment queries
// ---------------------------------------------------------------------------

/// Identity query: some installed package carries this normalized name.
pub open spec fn has_module(pkgs: Seq<PackageView>, name: Seq<char>) -> bool {
    exists|i: int| 0 <= i < pkgs.len() && normalize(pkgs[i].name) == normalize(name)
}

/// Exact query: some installed package carries this normalized name at
/// exactly this version.
pub open spec fn has_package(pkgs: Seq<PackageView>, p: PackageView) -> bool {
    exists|i: int|
        0 <= i < pkgs.len() && normalize(pkgs[i].name) == normalize(p.name) && pkgs[i].version
            == p.version
}

/// Whether a module of this name is importable from the environment,
/// judged by the installed-package listing.
pub fn contains_module(installed: &Vec<Package>, name: &str) -> (r: bool)
    ensures
        r == has_module(package_views(installed@), name@),
{
    let mut i: usize = 0;
    while i < installed.len()
        invariant
            0 <= i <= installed.len(),
            forall|j: int|
                0 <= j < i ==> normalize(package_views(installed@)[j].name) != normalize(name@),
        decreases installed.len() - i,
    {
        if crate::dependency::names_match(installed[i].name.as_str(), name) {
            proof {
                assert(package_views(installed@)[i as int] == installed@[i as int]@);
            }
            return true;
        }
        i += 1;
    }
    false
}

/// Whether exactly this package, name and version, is installed.
pub fn contains_package(installed: &Vec<Package>, package: &Package) -> (r: bool)
    ensures
        r == has_package(package_views(installed@), package@),
{
    let mut i: usize = 0;
    while i < installed.len()
        invariant
            0 <= i <= installed.len(),
            forall|j: int|
                0 <= j < i ==> !(normalize(package_views(installed@)[j].name) == normalize(
                    package@.name,
                ) && package_views(installed@)[j].version == package@.version),
        decreases installed.len() - i,
    {
        if crate::dependency::names_match(installed[i].name.as_str(), package.name.as_str())
            && installed[i].version == package.version {
            proof {
                assert(package_views(installed@)[i as int] == installed@[i as int]@);
            }
            return true;
        }
        i += 1;
    }
    false
}

// ---------------------------------------------------------------------------
// Looking a package up by requirement name
// ---------------------------------------------------------------------------

/// The first installed package whose normalized name matches, if any.
pub open spec fn find_package(pkgs: Seq<PackageView>, name: Seq<char>) -> Option<PackageView>
    decreases pkgs.len(),
{
    if pkgs.len() == 0 {
        None
    } else {
        match find_package(pkgs.drop_last(), name) {
            Some(p) => Some(p),
            None => if normalize(pkgs.last().name) == normalize(name) {
                Some(pkgs.last())
            } else {
                None
            },
        }
    }
}

proof fn lemma_find_package_extend(pkgs: Seq<PackageView>, name: Seq<char>, m: int)
    requires
        0 <= m <= pkgs.len(),
        find_package(pkgs.take(m), name) is Some,
    ensures
        find_package(pkgs, name) == find_package(pkgs.take(m), name),
    decreases pkgs.len() - m,
{
    if m < pkgs.len() {
        assert(pkgs.take(m + 1).drop_last() =~= pkgs.take(m));
        lemma_find_package_extend(pkgs, name, m + 1);
    } else {
        assert(pkgs.take(m) =~= pkgs);
    }
}

/// The position of the first installed package whose normalized name
/// matches the requirement name, if any.
#[verifier::loop_isolation(false)]
pub fn find_installed(installed: &Vec<Package>, name: &str) -> (r: Option<usize>)
    ensures
        match r {
            Some(i) => i < installed.len() && find_package(package_views(installed@), name@)
                == Some(package_views(installed@)[i as int]),
            None => find_package(package_views(installed@), name@) is None,
        },
{
    let ghost pkgs = package_views(installed@);
    let mut i: usize = 0;
    proof {
        assert(pkgs.take(0) =~= Seq::<PackageView>::empty());
    }
    while i < installed.len()
        invariant
            0 <= i <= installed.len(),
            find_package(pkgs.take(i as int), name@) is None,
        decreases installed.len() - i,
    {
        proof {
            assert(pkgs.take(i + 1 as int).drop_last() =~= pkgs.take(i as int));
        }
        if crate::dependency::names_match(installed[i].name.as_str(), name) {
            proof {
                assert(find_package(pkgs.take(i + 1 as int), name@) == Some(pkgs[i as int]));
                lemma_find_package_extend(pkgs, name@, i + 1 as int);
            }
            return Some(i);
        }
        i += 1;
    }
    proof {
        assert(pkgs.take(installed.len() as int) =~= pkgs);
    }
    None
}

/// The package a lookup yields carries, normalized, the name looked up.
pub proof fn lemma_find_package_name(pkgs: Seq<PackageView>, name: Seq<char>)
    ensures
        find_package(pkgs, name) matches Some(p) ==> normalize(p.name) == normalize(name),
    decreases pkgs.len(),
{
    if pkgs.len() > 0 {
        lemma_find_package_name(pkgs.drop_last(), name);
    }
}

/// The requirement as persisted after an install: left alone when it carries
/// a constraint, else pinned at the version the environment reports.
pub open spec fn backfill_dep(d: DepView, pkgs: Seq<PackageView>) -> DepView {
    if d.specifier is Any {
        match find_package(pkgs, d.name) {
            Some(p) => pinned_dep(p),
            None => d,
        }
    } else {
        d
    }
}

/// Pins a version-less requirement at the version the environment reports
/// installed for it, leaving any other requirement as it stands.
pub fn backfilled(d: &Dependency, installed: &Vec<Package>) -> (r: Dependency)
    ensures
        r@ == backfill_dep(d@, package_views(installed@)),
{
    if d.is_unconstrained() {
        match find_installed(installed, d.name.as_str()) {
            Some(i) => installed[i].to_dependency(),
            None => d.duplicate(),
        }
    } else {
        d.duplicate()
    }
}

/// The requirements whose modules the environment does not yet provide, in
/// order: the helper tools a command must install before it runs.
pub open spec fn keep_missing(ds: Seq<DepView>, pkgs: Seq<PackageView>) -> Seq<DepView>
    decreases ds.len(),
{
    if ds.len() == 0 {
        Seq::empty()
    } else if has_module(pkgs, ds.last().name) {
        keep_missing(ds.drop_last(), pkgs)
    } else {
        keep_missing(ds.drop_last(), pkgs).push(ds.last())
    }
}

/// Keeps the requirements whose modules the installed-package listing does
/// not provide yet.
#[verifier::loop_isolation(false)]
pub fn missing_tools(tools: &Vec<Dependency>, installed: &Vec<Package>) -> (r: Vec<Dependency>)
    ensures
        dep_views(r@) == keep_missing(dep_views(tools@), package_views(installed@)),
{
    let ghost ts = dep_views(tools@);
    let ghost pkgs = package_views(installed@);
    let mut out: Vec<Dependency> = Vec::new();
    let mut i: usize = 0;
    proof {
        assert(ts.take(0) =~= Seq::<DepView>::empty());
        assert(keep_missing(ts.take(0), pkgs) =~= dep_views(out@));
    }
    while i < tools.len()
        invariant
            0 <= i <= tools.len(),
            dep_views(out@) == keep_missing(ts.take(i as int), pkgs),
        decreases tools.len() - i,
    {
        proof {
            assert(ts.take(i + 1 as int).drop_last() =~= ts.take(i as int));
            assert(ts.take(i + 1 as int).last() == ts[i as int]);
        }
        if !contains_module(installed, tools[i].name.as_str()) {
            let ghost prev = dep_views(out@);
            out.push(tools[i].duplicate());
            proof {
                assert(dep_views(out@) =~= prev.push(ts[i as int]));
            }
        }
        i += 1;
    }
    proof {
        assert(ts.take(tools.len() as int) =~= ts);
    }
    out
}

// ---------------------------------------------------------------------------
// Installer invocations
// ---------------------------------------------------------------------------

/// The requirement texts of a batch, in order.
pub open spec fn rendered_deps(ds: Seq<DepView>) -> Seq<Seq<char>> {
    ds.map_values(|d: DepView| render_dep(d))
}

/// The names of a batch of requirements, in order.
pub open spec fn dep_names(ds: Seq<DepView>) -> Seq<Seq<char>> {
    ds.map_values(|d: DepView| d.name)
}

/// The extra installer arguments an options value carries.
pub open spec fn option_values(o: Option<Seq<Seq<char>>>) -> Seq<Seq<char>> {
    match o {
        Some(vs) => vs,
        None => Seq::empty(),
    }
}

pub open spec fn install_options_view(o: InstallOptions) -> Option<Seq<Seq<char>>> {
    match o.values {
        Some(vs) => Some(vs.deep_view()),
        None => None,
    }
}

#[verifier::loop_isolation(false)]
fn push_rendered(args: &mut Vec<String>, deps: &Vec<Dependency>)
    ensures
        final(args).deep_view() == old(args).deep_view() + rendered_deps(dep_views(deps@)),
{
    let mut i: usize = 0;
    proof {
        assert(args.deep_view() =~= args.deep_view() + rendered_deps(dep_views(deps@)).take(0));
    }
    while i < deps.len()
        invariant
            0 <= i <= deps.len(),
            args.deep_view() == old(args).deep_view() + rendered_deps(dep_views(deps@)).take(
                i as int,
            ),
        decreases deps.len() - i,
    {
        let ghost prev = args.deep_view();
        args.push(deps[i].requirement_text());
        proof {
            assert(args.deep_view() =~= prev.push(rendered_deps(dep_views(deps@))[i as int]));
            assert(old(args).deep_view() + rendered_deps(dep_views(deps@)).take(i + 1 as int)
                =~= prev.push(rendered_deps(dep_views(deps@))[i as int]));
        }
        i += 1;
    }
    proof {
        assert(rendered_deps(dep_views(deps@)).take(deps.len() as int) =~= rendered_deps(
            dep_views(deps@),
        ));
    }
}

#[verifier::loop_isolation(false)]
fn push_values(args: &mut Vec<String>, options: &InstallOptions)
    ensures
        final(args).deep_view() == old(args).deep_view() + option_values(
            install_options_view(*options),
        ),
{
    match &options.values {
        Some(vs) => {
            let mut i: usize = 0;
            proof {
                assert(args.deep_view() =~= args.deep_view() + vs.deep_view().take(0));
            }
            while i < vs.len()
                invariant
                    0 <= i <= vs.len(),
                    args.deep_view() == old(args).deep_view() + vs.deep_view().take(i as int),
                decreases vs.len() - i,
            {
                let ghost prev = args.deep_view();
                args.push(vs[i].clone());
                proof {
                    assert(args.deep_view() =~= prev.push(vs.deep_view()[i as int]));
                    assert(old(args).deep_view() + vs.deep_view().take(i + 1 as int) =~= prev.push(
                        vs.deep_view()[i as int],
                    ));
                }
                i += 1;
            }
            proof {
                assert(vs.deep_view().take(vs.len() as int) =~= vs.deep_view());
            }
        },
        None => {
            proof {
                assert(args.deep_view() =~= args.deep_view() + option_values(
                    install_options_view(*options),
                ));
            }
        },
    }
}

/// The argument list for one batched install call: the whole batch is handed
/// to the installer at once, so its resolver sees every requirement together.
pub fn install_args(deps: &Vec<Dependency>, options: &InstallOptions) -> (r: Vec<String>)
    ensures
        r.deep_view() == seq!["install"@] + rendered_deps(dep_views(deps@)) + option_values(
            install_options_view(*options),
        ),
{
    let mut args: Vec<String> = Vec::new();
    args.push(String::from_str("install"));
    proof {
        assert(args.deep_view() =~= seq!["install"@]);
    }
    push_rendered(&mut args, deps);
    push_values(&mut args, options);
    args
}

/// The argument list for one batched uninstall call.
#[verifier::loop_isolation(false)]
pub fn uninstall_args(deps: &Vec<Dependency>, options: &InstallOptions) -> (r: Vec<String>)
    ensures
        r.deep_view() == seq!["uninstall"@, "-y"@] + dep_names(dep_views(deps@)) + option_values(
            install_options_view(*options),
        ),
{
    let mut args: Vec<String> = Vec::new();
    args.push(String::from_str("uninstall"));
    args.push(String::from_str("-y"));
    proof {
        assert(args.deep_view() =~= seq!["uninstall"@, "-y"@]);
    }
    let ghost base = args.deep_view();
    let mut i: usize = 0;
    proof {
        assert(args.deep_view() =~= base + dep_names(dep_views(deps@)).take(0));
    }
    while i < deps.len()
        invariant
            0 <= i <= deps.len(),
            args.deep_view() == base + dep_names(dep_views(deps@)).take(i as int),
        decreases deps.len() - i,
    {
        let ghost prev = args.deep_view();
        args.push(deps[i].name.clone());
        proof {
            assert(args.deep_view() =~= prev.push(dep_names(dep_views(deps@))[i as int]));
            assert(base + dep_names(dep_views(deps@)).take(i + 1 as int) =~= prev.push(
                dep_names(dep_views(deps@))[i as int],
            ));
        }
        i += 1;
    }
    proof {
        assert(dep_names(dep_views(deps@)).take(deps.len() as int) =~= dep_names(
            dep_views(deps@),
        ));
    }
    push_values(&mut args, options);
    args
}

/// The argument list for one batched update call.
pub fn update_args(deps: &Vec<Dependency>, options: &InstallOptions) -> (r: Vec<String>)
    ensures
        r.deep_view() == seq!["install"@, "--upgrade"@] + rendered_deps(dep_views(deps@))
            + option_values(install_options_view(*options)),
{
    let mut args: Vec<String> = Vec::new();
    args.push(String::from_str("install"));
    args.push(String::from_str("--upgrade"));
    proof {
        assert(args.deep_view() =~= seq!["install"@, "--upgrade"@]);
    }
    push_rendered(&mut args, deps);
    push_values(&mut args, options);
    args
}

} // verus!

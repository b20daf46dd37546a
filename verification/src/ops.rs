use vstd::prelude::*;

use crate::dependency::{
    dep_views, exact_match, normalize, parse_dependency, parse_list, parse_requirements,
    same_identity, DepView, Dependency,
};
use crate::error::Error;
use crate::metadata::{
    add_dep_list, doc_contains_any, group_deps, has_group, lemma_add_dep_list,
    lemma_remove_name_list, list_has_exact, list_has_name, remove_name_list,
    spec_add_dependency, spec_add_optional, spec_add_script, spec_remove_everywhere,
    template_view, wf_doc, GroupView, Metadata, MetadataView,
};
use crate::python_environment::{
    backfill_dep, backfilled, find_package, lemma_find_package_name, package_views, pinned_dep,
    InstallOptions, Package, PackageView,
};

verus! {

// ---------------------------------------------------------------------------
// Options of the commands
// ---------------------------------------------------------------------------

pub struct AddOptions {
    pub install_options: InstallOptions,
}

pub struct BuildOptions {
    /// Extra arguments passed through to the build tool.
    pub values: Option<Vec<String>>,
    pub install_options: InstallOptions,
}

pub struct FormatOptions {
    /// Extra arguments passed through to the formatter.
    pub values: Option<Vec<String>>,
    pub install_options: InstallOptions,
}

pub struct LintOptions {
    /// Extra arguments passed through to the linter.
    pub values: Option<Vec<String>>,
    pub include_types: bool,
    pub install_options: InstallOptions,
}

pub struct RemoveOptions {
    pub install_options: InstallOptions,
}

pub struct PublishOptions {
    /// Extra arguments passed through to the publisher.
    pub values: Option<Vec<String>>,
    pub install_options: InstallOptions,
}

pub struct TestOptions {
    /// Extra arguments passed through to the test runner.
    pub values: Option<Vec<String>>,
    pub install_options: InstallOptions,
}

pub struct UpdateOptions {
    pub install_options: InstallOptions,
}

pub struct CleanOptions {
    pub include_pycache: bool,
    pub include_compiled_bytecode: bool,
}

/// What a reconciliation yields: the document as it stands after the
/// operation, and whether it differs from the loaded snapshot. That flag is
/// the sole gate for writing the file back: equal documents are never
/// rewritten.
pub struct ReconciledMetadata {
    pub metadata: Metadata,
    pub write_needed: bool,
}

/// A removal reconciliation: the document after the removal, the write
/// gate, and the batch to hand to the environment's uninstaller.
pub struct RemovalOutcome {
    pub metadata: Metadata,
    pub write_needed: bool,
    pub to_uninstall: Vec<Dependency>,
}

// ---------------------------------------------------------------------------
// Planning: which requested requirements call for work
// ---------------------------------------------------------------------------

/// The requirements not yet declared anywhere in the document, in request
/// order: the candidates of an add.
pub open spec fn keep_undeclared(m: MetadataView, ds: Seq<DepView>) -> Seq<DepView>
    decreases ds.len(),
{
    if ds.len() == 0 {
        Seq::empty()
    } else if doc_contains_any(m, normalize(ds.last().name)) {
        keep_undeclared(m, ds.drop_last())
    } else {
        keep_undeclared(m, ds.drop_last()).push(ds.last())
    }
}

/// The requirements declared somewhere in the document, in request order:
/// the candidates of a remove or an update.
pub open spec fn keep_declared(m: MetadataView, ds: Seq<DepView>) -> Seq<DepView>
    decreases ds.len(),
{
    if ds.len() == 0 {
        Seq::empty()
    } else if doc_contains_any(m, normalize(ds.last().name)) {
        keep_declared(m, ds.drop_last()).push(ds.last())
    } else {
        keep_declared(m, ds.drop_last())
    }
}

/// Reads the requested requirement texts and keeps those not yet declared;
/// an empty result means the whole add is a no-op. A single malformed text
/// rejects the batch.
#[verifier::loop_isolation(false)]
pub fn plan_additions(metadata: &Metadata, dependencies: &Vec<String>) -> (r: Result<
    Vec<Dependency>,
    Error,
>)
    ensures
        match r {
            Ok(ds) => parse_list(dependencies.deep_view()) matches Ok(ps) && dep_views(ds@)
                == keep_undeclared(metadata@, ps),
            Err(e) => parse_list(dependencies.deep_view()) == Err::<Seq<DepView>, Error>(e),
        },
{
    let parsed = match parse_requirements(dependencies) {
        Ok(ds) => ds,
        Err(e) => {
            return Err(e);
        },
    };
    let ghost ps = dep_views(parsed@);
    let mut out: Vec<Dependency> = Vec::new();
    let mut i: usize = 0;
    proof {
        assert(ps.take(0) =~= Seq::<DepView>::empty());
        assert(keep_undeclared(metadata@, ps.take(0)) =~= dep_views(out@));
    }
    while i < parsed.len()
        invariant
            0 <= i <= parsed.len(),
            dep_views(out@) == keep_undeclared(metadata@, ps.take(i as int)),
        decreases parsed.len() - i,
    {
        proof {
            assert(ps.take(i + 1 as int).drop_last() =~= ps.take(i as int));
            assert(ps.take(i + 1 as int).last() == ps[i as int]);
        }
        if !metadata.contains_dependency_any(&parsed[i]) {
            let ghost prev = dep_views(out@);
            out.push(parsed[i].duplicate());
            proof {
                assert(dep_views(out@) =~= prev.push(ps[i as int]));
            }
        }
        i += 1;
    }
    proof {
        assert(ps.take(parsed.len() as int) =~= ps);
    }
    Ok(out)
}

/// Reads the requested requirement texts and keeps those declared
/// somewhere; an empty result means the whole remove or update is a no-op.
#[verifier::loop_isolation(false)]
pub fn plan_declared(metadata: &Metadata, dependencies: &Vec<String>) -> (r: Result<
    Vec<Dependency>,
    Error,
>)
    ensures
        match r {
            Ok(ds) => parse_list(dependencies.deep_view()) matches Ok(ps) && dep_views(ds@)
                == keep_declared(metadata@, ps),
            Err(e) => parse_list(dependencies.deep_view()) == Err::<Seq<DepView>, Error>(e),
        },
{
    let parsed = match parse_requirements(dependencies) {
        Ok(ds) => ds,
        Err(e) => {
            return Err(e);
        },
    };
    let ghost ps = dep_views(parsed@);
    let mut out: Vec<Dependency> = Vec::new();
    let mut i: usize = 0;
    proof {
        assert(ps.take(0) =~= Seq::<DepView>::empty());
        assert(keep_declared(metadata@, ps.take(0)) =~= dep_views(out@));
    }
    while i < parsed.len()
        invariant
            0 <= i <= parsed.len(),
            dep_views(out@) == keep_declared(metadata@, ps.take(i as int)),
        decreases parsed.len() - i,
    {
        proof {
            assert(ps.take(i + 1 as int).drop_last() =~= ps.take(i as int));
            assert(ps.take(i + 1 as int).last() == ps[i as int]);
        }
        if metadata.contains_dependency_any(&parsed[i]) {
            let ghost prev = dep_views(out@);
            out.push(parsed[i].duplicate());
            proof {
                assert(dep_views(out@) =~= prev.push(ps[i as int]));
            }
        }
        i += 1;
    }
    proof {
        assert(ps.take(parsed.len() as int) =~= ps);
    }
    Ok(out)
}

/// Some group of this literal name declares the normalized name.
pub open spec fn group_declares(m: MetadataView, g: Seq<char>, n: Seq<char>) -> bool {
    exists|i: int|
        0 <= i < m.optional_dependencies.len() && (#[trigger] m.optional_dependencies[i]).name
            == g && list_has_name(m.optional_dependencies[i].dependencies, n)
}

/// The requirements not yet declared, by identity, inside the group of this
/// name: the candidates of an optional add.
pub open spec fn keep_undeclared_in_group(
    m: MetadataView,
    ds: Seq<DepView>,
    g: Seq<char>,
) -> Seq<DepView>
    decreases ds.len(),
{
    if ds.len() == 0 {
        Seq::empty()
    } else if group_declares(m, g, normalize(ds.last().name)) {
        keep_undeclared_in_group(m, ds.drop_last(), g)
    } else {
        keep_undeclared_in_group(m, ds.drop_last(), g).push(ds.last())
    }
}

/// Reads the requested requirement texts and keeps those not yet declared,
/// by identity, in the group of this name; an empty result means the whole
/// optional add is a no-op. A single malformed text rejects the batch.
#[verifier::loop_isolation(false)]
pub fn plan_optional_additions(
    metadata: &Metadata,
    dependencies: &Vec<String>,
    group: &str,
) -> (r: Result<Vec<Dependency>, Error>)
    ensures
        match r {
            Ok(ds) => parse_list(dependencies.deep_view()) matches Ok(ps) && dep_views(ds@)
                == keep_undeclared_in_group(metadata@, ps, group@),
            Err(e) => parse_list(dependencies.deep_view()) == Err::<Seq<DepView>, Error>(e),
        },
{
    let parsed = match parse_requirements(dependencies) {
        Ok(ds) => ds,
        Err(e) => {
            return Err(e);
        },
    };
    let ghost ps = dep_views(parsed@);
    let mut out: Vec<Dependency> = Vec::new();
    let mut i: usize = 0;
    proof {
        assert(ps.take(0) =~= Seq::<DepView>::empty());
        assert(keep_undeclared_in_group(metadata@, ps.take(0), group@) =~= dep_views(out@));
    }
    while i < parsed.len()
        invariant
            0 <= i <= parsed.len(),
            dep_views(out@) == keep_undeclared_in_group(metadata@, ps.take(i as int), group@),
        decreases parsed.len() - i,
    {
        proof {
            assert(ps.take(i + 1 as int).drop_last() =~= ps.take(i as int));
            assert(ps.take(i + 1 as int).last() == ps[i as int]);
        }
        if !metadata.contains_optional_dependency_any(&parsed[i], group) {
            let ghost prev = dep_views(out@);
            out.push(parsed[i].duplicate());
            proof {
                assert(dep_views(out@) =~= prev.push(ps[i as int]));
            }
        }
        i += 1;
    }
    proof {
        assert(ps.take(parsed.len() as int) =~= ps);
    }
    Ok(out)
}

// ---------------------------------------------------------------------------
// Adding dependencies
// ---------------------------------------------------------------------------

/// The planned requirements folded into the required list, each pinned at
/// its installed version when it was version-less.
pub open spec fn apply_additions(
    m: MetadataView,
    planned: Seq<DepView>,
    pkgs: Seq<PackageView>,
) -> MetadataView
    decreases planned.len(),
{
    if planned.len() == 0 {
        m
    } else {
        spec_add_dependency(
            apply_additions(m, planned.drop_last(), pkgs),
            backfill_dep(planned.last(), pkgs),
        )
    }
}

/// The planned requirements folded into the group of this name, each pinned
/// at its installed version when it was version-less.
pub open spec fn apply_optional_additions(
    m: MetadataView,
    planned: Seq<DepView>,
    pkgs: Seq<PackageView>,
    g: Seq<char>,
) -> MetadataView
    decreases planned.len(),
{
    if planned.len() == 0 {
        m
    } else {
        spec_add_optional(
            apply_optional_additions(m, planned.drop_last(), pkgs, g),
            backfill_dep(planned.last(), pkgs),
            g,
        )
    }
}

/// Records a planned add in the document, after the environment installed
/// the batch: every planned requirement without an explicit version is
/// pinned at the version `installed` reports, the others are recorded
/// verbatim, and the write gate says whether the document changed. An empty
/// plan changes nothing and asks for no write.
#[verifier::loop_isolation(false)]
pub fn add_project_dependencies(
    metadata: &Metadata,
    planned: &Vec<Dependency>,
    installed: &Vec<Package>,
) -> (r: ReconciledMetadata)
    ensures
        r.metadata@ == apply_additions(metadata@, dep_views(planned@), package_views(installed@)),
        r.write_needed == (r.metadata@ != metadata@),
        planned.len() == 0 ==> r.metadata@ == metadata@ && !r.write_needed,
        wf_doc(metadata@) ==> wf_doc(r.metadata@),
{
    let ghost ps = dep_views(planned@);
    let ghost pkgs = package_views(installed@);
    let mut doc = metadata.duplicate();
    let mut i: usize = 0;
    proof {
        assert(ps.take(0) =~= Seq::<DepView>::empty());
    }
    while i < planned.len()
        invariant
            0 <= i <= planned.len(),
            doc@ == apply_additions(metadata@, ps.take(i as int), pkgs),
            wf_doc(metadata@) ==> wf_doc(doc@),
        decreases planned.len() - i,
    {
        proof {
            assert(ps.take(i + 1 as int).drop_last() =~= ps.take(i as int));
            assert(ps.take(i + 1 as int).last() == ps[i as int]);
        }
        let b = backfilled(&planned[i], installed);
        doc.add_dependency(b);
        i += 1;
    }
    proof {
        assert(ps.take(planned.len() as int) =~= ps);
    }
    let write_needed = !doc.same_document(metadata);
    ReconciledMetadata { metadata: doc, write_needed }
}

/// Records a planned add to an optional group, after the environment
/// installed the batch; the pinning and the write gate work as for a
/// required add.
#[verifier::loop_isolation(false)]
pub fn add_project_optional_dependencies(
    metadata: &Metadata,
    planned: &Vec<Dependency>,
    group: &str,
    installed: &Vec<Package>,
) -> (r: ReconciledMetadata)
    ensures
        r.metadata@ == apply_optional_additions(
            metadata@,
            dep_views(planned@),
            package_views(installed@),
            group@,
        ),
        r.write_needed == (r.metadata@ != metadata@),
        planned.len() == 0 ==> r.metadata@ == metadata@ && !r.write_needed,
        wf_doc(metadata@) ==> wf_doc(r.metadata@),
{
    let ghost ps = dep_views(planned@);
    let ghost pkgs = package_views(installed@);
    let mut doc = metadata.duplicate();
    let mut i: usize = 0;
    proof {
        assert(ps.take(0) =~= Seq::<DepView>::empty());
    }
    while i < planned.len()
        invariant
            0 <= i <= planned.len(),
            doc@ == apply_optional_additions(metadata@, ps.take(i as int), pkgs, group@),
            wf_doc(metadata@) ==> wf_doc(doc@),
        decreases planned.len() - i,
    {
        proof {
            assert(ps.take(i + 1 as int).drop_last() =~= ps.take(i as int));
            assert(ps.take(i + 1 as int).last() == ps[i as int]);
        }
        let b = backfilled(&planned[i], installed);
        doc.add_optional_dependency(b, group);
        i += 1;
    }
    proof {
        assert(ps.take(planned.len() as int) =~= ps);
    }
    let write_needed = !doc.same_document(metadata);
    ReconciledMetadata { metadata: doc, write_needed }
}

// ---------------------------------------------------------------------------
// Removing dependencies
// ---------------------------------------------------------------------------

/// The candidates erased, one after the other, from the required list and
/// from every optional group.
pub open spec fn apply_removals(m: MetadataView, ds: Seq<DepView>) -> MetadataView
    decreases ds.len(),
{
    if ds.len() == 0 {
        m
    } else {
        spec_remove_everywhere(apply_removals(m, ds.drop_last()), normalize(ds.last().name))
    }
}

/// Removes the requested dependencies: each one declared somewhere, by
/// identity, is erased from the required list and from every optional
/// group, and belongs to the batch handed to the uninstaller. Requests for
/// dependencies not declared at all are dropped; when nothing is declared
/// the document is untouched, no write is asked for, and the uninstall
/// batch is empty. A single malformed text rejects the batch.
#[verifier::loop_isolation(false)]
pub fn remove_project_dependencies(metadata: &Metadata, dependencies: &Vec<String>) -> (r: Result<
    RemovalOutcome,
    Error,
>)
    ensures
        match r {
            Ok(out) => parse_list(dependencies.deep_view()) matches Ok(ps) && {
                let cands = keep_declared(metadata@, ps);
                dep_views(out.to_uninstall@) == cands && out.metadata@ == apply_removals(
                    metadata@,
                    cands,
                ) && out.write_needed == (out.metadata@ != metadata@) && (cands.len() == 0
                    ==> out.metadata@ == metadata@ && !out.write_needed) && (wf_doc(metadata@)
                    ==> wf_doc(out.metadata@))
            },
            Err(e) => parse_list(dependencies.deep_view()) == Err::<Seq<DepView>, Error>(e),
        },
{
    let to_uninstall = match plan_declared(metadata, dependencies) {
        Ok(ds) => ds,
        Err(e) => {
            return Err(e);
        },
    };
    let ghost cands = dep_views(to_uninstall@);
    let mut doc = metadata.duplicate();
    let mut i: usize = 0;
    proof {
        assert(cands.take(0) =~= Seq::<DepView>::empty());
    }
    while i < to_uninstall.len()
        invariant
            0 <= i <= to_uninstall.len(),
            doc@ == apply_removals(metadata@, cands.take(i as int)),
            wf_doc(metadata@) ==> wf_doc(doc@),
        decreases to_uninstall.len() - i,
    {
        proof {
            assert(cands.take(i + 1 as int).drop_last() =~= cands.take(i as int));
            assert(cands.take(i + 1 as int).last() == cands[i as int]);
        }
        doc.remove_dependency_everywhere(&to_uninstall[i]);
        i += 1;
    }
    proof {
        assert(cands.take(to_uninstall.len() as int) =~= cands);
    }
    let write_needed = !doc.same_document(metadata);
    Ok(RemovalOutcome { metadata: doc, write_needed, to_uninstall })
}

// ---------------------------------------------------------------------------
// Installing declared dependencies
// ---------------------------------------------------------------------------

/// Every requirement of every group, in document order.
pub open spec fn flatten_groups(gs: Seq<GroupView>) -> Seq<DepView>
    decreases gs.len(),
{
    if gs.len() == 0 {
        Seq::empty()
    } else {
        flatten_groups(gs.drop_last()) + gs.last().dependencies
    }
}

/// Every declared requirement: the required list, then every group.
pub open spec fn all_declared(m: MetadataView) -> Seq<DepView> {
    m.dependencies + flatten_groups(m.optional_dependencies)
}

/// The declared requirements the requested groups select, looked up by
/// literal group name; a missing group contributes nothing.
pub open spec fn selected_from_groups(m: MetadataView, gs: Seq<Seq<char>>) -> Seq<DepView>
    decreases gs.len(),
{
    if gs.len() == 0 {
        Seq::empty()
    } else {
        selected_from_groups(m, gs.drop_last()) + (match group_deps(
            m.optional_dependencies,
            gs.last(),
        ) {
            Some(ds) => ds,
            None => Seq::empty(),
        })
    }
}

/// The install set a request selects: with no groups named, everything
/// declared; with the pseudo-group `required` named while no optional group
/// carries that literal name, exactly the required list; otherwise the
/// groups' lists, looked up literally.
pub open spec fn selected_deps(m: MetadataView, groups: Option<Seq<Seq<char>>>) -> Seq<DepView> {
    match groups {
        None => all_declared(m),
        Some(gs) => if gs.contains("required"@) && !has_group(
            m.optional_dependencies,
            "required"@,
        ) {
            m.dependencies
        } else {
            selected_from_groups(m, gs)
        },
    }
}

/// First occurrence kept, later requirements of the same identity dropped.
pub open spec fn dedup_by_name(ds: Seq<DepView>) -> Seq<DepView>
    decreases ds.len(),
{
    if ds.len() == 0 {
        Seq::empty()
    } else if list_has_name(ds.drop_last(), normalize(ds.last().name)) {
        dedup_by_name(ds.drop_last())
    } else {
        dedup_by_name(ds.drop_last()).push(ds.last())
    }
}

/// Deduplication drops only later spellings of an identity: the batched
/// install still covers every dependency the selection named.
pub proof fn lemma_dedup_names(ds: Seq<DepView>)
    ensures
        forall|n: Seq<char>| #[trigger]
            list_has_name(dedup_by_name(ds), n) == list_has_name(ds, n),
    decreases ds.len(),
{
    if ds.len() > 0 {
        let prefix = ds.drop_last();
        lemma_dedup_names(prefix);
        let r = dedup_by_name(ds);
        let rp = dedup_by_name(prefix);
        assert forall|n: Seq<char>| #[trigger]
            list_has_name(r, n) == list_has_name(ds, n) by {
            if list_has_name(r, n) {
                if list_has_name(prefix, normalize(ds.last().name)) || list_has_name(rp, n) {
                    if list_has_name(rp, n) {
                        let i = choose|i: int| 0 <= i < rp.len() && normalize(rp[i].name) == n;
                        if !list_has_name(prefix, normalize(ds.last().name)) {
                            assert(r[i] == rp[i]);
                        }
                        assert(list_has_name(prefix, n));
                        let k = choose|k: int|
                            0 <= k < prefix.len() && normalize(prefix[k].name) == n;
                        assert(normalize(ds[k].name) == n);
                    } else {
                        let i = choose|i: int| 0 <= i < r.len() && normalize(r[i].name) == n;
                        assert(r[i] == ds.last());
                        assert(normalize(ds[ds.len() - 1].name) == n);
                    }
                } else {
                    let i = choose|i: int| 0 <= i < r.len() && normalize(r[i].name) == n;
                    if i < rp.len() {
                        assert(list_has_name(rp, n));
                        let k = choose|k: int|
                            0 <= k < prefix.len() && normalize(prefix[k].name) == n;
                        assert(normalize(ds[k].name) == n);
                    } else {
                        assert(r[i] == ds.last());
                        assert(normalize(ds[ds.len() - 1].name) == n);
                    }
                }
            }
            if list_has_name(ds, n) {
                let i = choose|i: int| 0 <= i < ds.len() && normalize(ds[i].name) == n;
                if i < ds.len() - 1 {
                    assert(normalize(prefix[i].name) == n);
                    assert(list_has_name(rp, n));
                    let k = choose|k: int| 0 <= k < rp.len() && normalize(rp[k].name) == n;
                    if !list_has_name(prefix, normalize(ds.last().name)) {
                        assert(r[k] == rp[k]);
                    }
                    assert(list_has_name(r, n));
                } else {
                    if list_has_name(prefix, normalize(ds.last().name)) {
                        assert(list_has_name(rp, n));
                        let k = choose|k: int| 0 <= k < rp.len() && normalize(rp[k].name) == n;
                        assert(list_has_name(r, n));
                    } else {
                        assert(r[r.len() - 1] == ds.last());
                        assert(normalize(r[r.len() - 1].name) == n);
                    }
                }
            }
        }
    }
}

#[verifier::loop_isolation(false)]
fn append_deps(out: &mut Vec<Dependency>, ds: &Vec<Dependency>)
    ensures
        dep_views(final(out)@) == dep_views(old(out)@) + dep_views(ds@),
{
    let mut i: usize = 0;
    proof {
        assert(dep_views(out@) =~= dep_views(old(out)@) + dep_views(ds@).take(0));
    }
    while i < ds.len()
        invariant
            0 <= i <= ds.len(),
            dep_views(out@) == dep_views(old(out)@) + dep_views(ds@).take(i as int),
        decreases ds.len() - i,
    {
        let ghost prev = dep_views(out@);
        out.push(ds[i].duplicate());
        proof {
            assert(dep_views(out@) =~= prev.push(dep_views(ds@)[i as int]));
            assert(dep_views(old(out)@) + dep_views(ds@).take(i + 1 as int) =~= prev.push(
                dep_views(ds@)[i as int],
            ));
        }
        i += 1;
    }
    proof {
        assert(dep_views(ds@).take(ds.len() as int) =~= dep_views(ds@));
    }
}

/// The batch to hand the installer for an install request: the selected
/// declared requirements, deduplicated by identity with the first
/// occurrence kept. An empty batch means nothing is to be installed and no
/// environment need be resolved. Requesting the pseudo-group `required`
/// when no optional group carries that literal name selects exactly the
/// required list; a missing group selects nothing and is no error.
#[verifier::loop_isolation(false)]
pub fn install_project_dependencies(metadata: &Metadata, groups: Option<&Vec<String>>) -> (r: Vec<
    Dependency,
>)
    ensures
        match groups {
            Some(gs) => dep_views(r@) == dedup_by_name(
                selected_deps(metadata@, Some(gs.deep_view())),
            ),
            None => dep_views(r@) == dedup_by_name(selected_deps(metadata@, None)),
        },
{
    let mut sel: Vec<Dependency> = Vec::new();
    match groups {
        None => {
            append_deps(&mut sel, metadata.dependencies());
            proof {
                assert(dep_views(sel@) =~= metadata@.dependencies + flatten_groups(
                    metadata@.optional_dependencies.take(0),
                ));
            }
            let ghost gvs = metadata@.optional_dependencies;
            let mut i: usize = 0;
            while i < metadata.optional_dependencies.len()
                invariant
                    0 <= i <= metadata.optional_dependencies.len(),
                    dep_views(sel@) == metadata@.dependencies + flatten_groups(
                        gvs.take(i as int),
                    ),
                decreases metadata.optional_dependencies.len() - i,
            {
                proof {
                    assert(gvs.take(i + 1 as int).drop_last() =~= gvs.take(i as int));
                    assert(gvs[i as int] == metadata.optional_dependencies@[i as int]@);
                }
                let ghost prev = dep_views(sel@);
                append_deps(&mut sel, &metadata.optional_dependencies[i].dependencies);
                proof {
                    assert(metadata@.dependencies + flatten_groups(gvs.take(i + 1 as int))
                        =~= prev + gvs[i as int].dependencies);
                }
                i += 1;
            }
            proof {
                assert(gvs.take(metadata.optional_dependencies.len() as int) =~= gvs);
            }
        },
        Some(gs) => {
            let ghost gss = gs.deep_view();
            let mut wants_required = false;
            let mut i: usize = 0;
            while i < gs.len()
                invariant
                    0 <= i <= gs.len(),
                    wants_required == exists|j: int| 0 <= j < i && gss[j] == "required"@,
                decreases gs.len() - i,
            {
                if crate::dependency::texts_equal(gs[i].as_str(), "required") {
                    proof {
                        assert(gss[i as int] == "required"@);
                    }
                    wants_required = true;
                }
                i += 1;
            }
            proof {
                if wants_required {
                    assert(gss.contains("required"@));
                } else {
                    if gss.contains("required"@) {
                        let j = choose|j: int| 0 <= j < gss.len() && gss[j] == "required"@;
                    }
                    assert(!gss.contains("required"@));
                }
            }
            if wants_required && !metadata.has_optional_group("required") {
                append_deps(&mut sel, metadata.dependencies());
                proof {
                    assert(dep_views(sel@) =~= selected_deps(metadata@, Some(gss)));
                }
            } else {
                let mut i: usize = 0;
                proof {
                    assert(gss.take(0) =~= Seq::<Seq<char>>::empty());
                    assert(dep_views(sel@) =~= selected_from_groups(metadata@, gss.take(0)));
                }
                while i < gs.len()
                    invariant
                        0 <= i <= gs.len(),
                        dep_views(sel@) == selected_from_groups(metadata@, gss.take(i as int)),
                    decreases gs.len() - i,
                {
                    proof {
                        assert(gss.take(i + 1 as int).drop_last() =~= gss.take(i as int));
                        assert(gss.take(i + 1 as int).last() == gss[i as int]);
                    }
                    let ghost prev = dep_views(sel@);
                    match metadata.group_dependencies(gs[i].as_str()) {
                        Some(ds) => {
                            append_deps(&mut sel, &ds);
                            proof {
                                assert(selected_from_groups(metadata@, gss.take(i + 1 as int))
                                    =~= prev + dep_views(ds@));
                            }
                        },
                        None => {
                            proof {
                                assert(selected_from_groups(metadata@, gss.take(i + 1 as int))
                                    =~= prev);
                            }
                        },
                    }
                    i += 1;
                }
                proof {
                    assert(gss.take(gs.len() as int) =~= gss);
                }
            }
        },
    }
    let ghost selv = dep_views(sel@);
    let mut out: Vec<Dependency> = Vec::new();
    let mut i: usize = 0;
    proof {
        assert(selv.take(0) =~= Seq::<DepView>::empty());
        assert(dedup_by_name(selv.take(0)) =~= dep_views(out@));
        assert forall|n: Seq<char>| #[trigger]
            list_has_name(dep_views(out@), n) == list_has_name(selv.take(0), n) by {
            if list_has_name(dep_views(out@), n) {
                let k = choose|k: int|
                    0 <= k < dep_views(out@).len() && normalize(dep_views(out@)[k].name) == n;
            }
            if list_has_name(selv.take(0), n) {
                let k = choose|k: int|
                    0 <= k < selv.take(0).len() && normalize(selv.take(0)[k].name) == n;
            }
        }
    }
    while i < sel.len()
        invariant
            0 <= i <= sel.len(),
            dep_views(out@) == dedup_by_name(selv.take(i as int)),
            forall|n: Seq<char>| #[trigger]
                list_has_name(dep_views(out@), n) == list_has_name(selv.take(i as int), n),
        decreases sel.len() - i,
    {
        proof {
            assert(selv.take(i + 1 as int).drop_last() =~= selv.take(i as int));
            assert(selv.take(i + 1 as int).last() == selv[i as int]);
        }
        let ghost before = dep_views(out@);
        if !crate::metadata::list_contains_name(&out, sel[i].name.as_str()) {
            out.push(sel[i].duplicate());
            proof {
                assert(dep_views(out@) =~= before.push(selv[i as int]));
            }
        }
        proof {
            assert forall|n: Seq<char>| #[trigger]
                list_has_name(dep_views(out@), n) == list_has_name(
                selv.take(i + 1 as int),
                n,
            ) by {
                let cur = dep_views(out@);
                let t = selv.take(i + 1 as int);
                if list_has_name(cur, n) {
                    let k = choose|k: int| 0 <= k < cur.len() && normalize(cur[k].name) == n;
                    if k < before.len() {
                        assert(list_has_name(before, n));
                        let k2 = choose|k2: int|
                            0 <= k2 < selv.take(i as int).len() && normalize(
                                selv.take(i as int)[k2].name,
                            ) == n;
                        assert(normalize(t[k2].name) == n);
                    } else {
                        assert(cur[k] == selv[i as int]);
                        assert(normalize(t[t.len() - 1].name) == n);
                    }
                }
                if list_has_name(t, n) {
                    let k = choose|k: int| 0 <= k < t.len() && normalize(t[k].name) == n;
                    if k < i {
                        assert(normalize(selv.take(i as int)[k].name) == n);
                        assert(list_has_name(before, n));
                        let k2 = choose|k2: int|
                            0 <= k2 < before.len() && normalize(before[k2].name) == n;
                        assert(normalize(cur[k2].name) == n);
                    } else {
                        assert(normalize(selv[i as int].name) == n);
                        if list_has_name(selv.take(i as int), n) {
                            let k2 = choose|k2: int|
                                0 <= k2 < before.len() && normalize(before[k2].name) == n;
                            assert(normalize(cur[k2].name) == n);
                        } else {
                            assert(cur[cur.len() - 1] == selv[i as int]);
                        }
                    }
                }
            }
        }
        i += 1;
    }
    proof {
        assert(selv.take(sel.len() as int) =~= selv);
    }
    out
}

// ---------------------------------------------------------------------------
// Updating dependencies
// ---------------------------------------------------------------------------

/// The batch an update re-installs: the requested requirements that are
/// declared, or, with no explicit request, everything declared,
/// deduplicated by identity. An empty batch means the update is a no-op. A
/// single malformed text rejects the batch.
pub fn plan_update(metadata: &Metadata, dependencies: Option<&Vec<String>>) -> (r: Result<
    Vec<Dependency>,
    Error,
>)
    ensures
        match dependencies {
            Some(texts) => match r {
                Ok(ds) => parse_list(texts.deep_view()) matches Ok(ps) && dep_views(ds@)
                    == keep_declared(metadata@, ps),
                Err(e) => parse_list(texts.deep_view()) == Err::<Seq<DepView>, Error>(e),
            },
            None => r matches Ok(ds) && dep_views(ds@) == dedup_by_name(all_declared(metadata@)),
        },
{
    match dependencies {
        Some(texts) => plan_declared(metadata, texts),
        None => Ok(install_project_dependencies(metadata, None)),
    }
}

/// Every declared requirement re-pinned: entries without an explicit
/// version take the version the environment reports installed, entries
/// with a user-written constraint stay verbatim.
pub open spec fn refresh_doc(m: MetadataView, pkgs: Seq<PackageView>) -> MetadataView {
    MetadataView {
        dependencies: m.dependencies.map_values(|d: DepView| backfill_dep(d, pkgs)),
        optional_dependencies: m.optional_dependencies.map_values(
            |gv: GroupView|
                GroupView {
                    name: gv.name,
                    dependencies: gv.dependencies.map_values(
                        |d: DepView| backfill_dep(d, pkgs),
                    ),
                },
        ),
        ..m
    }
}

#[verifier::loop_isolation(false)]
fn backfill_list(ds: &Vec<Dependency>, installed: &Vec<Package>) -> (r: Vec<Dependency>)
    ensures
        dep_views(r@) == dep_views(ds@).map_values(
            |d: DepView| backfill_dep(d, package_views(installed@)),
        ),
{
    let ghost pkgs = package_views(installed@);
    let ghost target = dep_views(ds@).map_values(|d: DepView| backfill_dep(d, pkgs));
    let mut out: Vec<Dependency> = Vec::new();
    let mut i: usize = 0;
    while i < ds.len()
        invariant
            0 <= i <= ds.len(),
            dep_views(out@) == target.take(i as int),
        decreases ds.len() - i,
    {
        let ghost prev = dep_views(out@);
        out.push(backfilled(&ds[i], installed));
        proof {
            assert(dep_views(out@) =~= prev.push(target[i as int]));
            assert(target.take(i + 1 as int) =~= target.take(i as int).push(target[i as int]));
        }
        i += 1;
    }
    proof {
        assert(dep_views(out@) =~= target.take(0) + dep_views(out@));
        assert(target.take(ds.len() as int) =~= target);
    }
    out
}

/// Records an update in the document, after the environment re-installed
/// the batch: every declared requirement that lacked an explicit version is
/// re-pinned at the version `installed` now reports, user-written
/// constraints stay verbatim, and the write gate says whether the document
/// changed.
#[verifier::loop_isolation(false)]
pub fn update_project_dependencies(metadata: &Metadata, installed: &Vec<Package>) -> (r:
    ReconciledMetadata)
    ensures
        r.metadata@ == refresh_doc(metadata@, package_views(installed@)),
        r.write_needed == (r.metadata@ != metadata@),
{
    let ghost pkgs = package_views(installed@);
    let mut doc = metadata.duplicate();
    let nd = backfill_list(&metadata.dependencies, installed);
    doc.dependencies = nd;
    let ghost gvs = metadata@.optional_dependencies;
    let ghost tgroups = gvs.map_values(
        |gv: GroupView|
            GroupView {
                name: gv.name,
                dependencies: gv.dependencies.map_values(|d: DepView| backfill_dep(d, pkgs)),
            },
    );
    let mut groups: Vec<crate::metadata::DependencyGroup> = Vec::new();
    let mut i: usize = 0;
    while i < metadata.optional_dependencies.len()
        invariant
            0 <= i <= metadata.optional_dependencies.len(),
            crate::metadata::group_views(groups@) == tgroups.take(i as int),
        decreases metadata.optional_dependencies.len() - i,
    {
        proof {
            assert(gvs[i as int] == metadata.optional_dependencies@[i as int]@);
        }
        let ghost prev = crate::metadata::group_views(groups@);
        let g = &metadata.optional_dependencies[i];
        groups.push(
            crate::metadata::DependencyGroup {
                name: g.name.clone(),
                dependencies: backfill_list(&g.dependencies, installed),
            },
        );
        proof {
            assert(crate::metadata::group_views(groups@)[i as int] == groups@[i as int]@);
            assert(groups@[i as int]@ =~= tgroups[i as int]);
            assert(crate::metadata::group_views(groups@) =~= prev.push(tgroups[i as int]));
            assert(tgroups.take(i + 1 as int) =~= tgroups.take(i as int).push(
                tgroups[i as int],
            ));
        }
        i += 1;
    }
    proof {
        assert(crate::metadata::group_views(groups@) =~= tgroups.take(0) + crate::metadata::group_views(groups@));
        assert(tgroups.take(metadata.optional_dependencies.len() as int) =~= tgroups);
    }
    doc.optional_dependencies = groups;
    proof {
        assert(doc@ =~= refresh_doc(metadata@, pkgs));
    }
    let write_needed = !doc.same_document(metadata);
    ReconciledMetadata { metadata: doc, write_needed }
}

// ---------------------------------------------------------------------------
// Starting a project
// ---------------------------------------------------------------------------

/// The importable module name of a package: lower case, with every
/// separator written `_`.
pub open spec fn module_char(c: char) -> char {
    if c == '-' || c == '.' || c == '_' {
        '_'
    } else {
        crate::dependency::lower_char(c)
    }
}

pub open spec fn importable_name(s: Seq<char>) -> Seq<char> {
    s.map_values(|c: char| module_char(c))
}

fn module_char_exec(c: char) -> (r: char)
    ensures
        r == module_char(c),
{
    if c == '-' || c == '.' || c == '_' {
        '_'
    } else {
        crate::dependency::lower_char_of(c)
    }
}

/// The importable module name a package name turns into.
#[verifier::loop_isolation(false)]
pub fn importable_package_name(name: &str) -> (r: String)
    ensures
        r@ == importable_name(name@),
{
    let n: usize = name.unicode_len();
    let mut out = String::new();
    let mut i: usize = 0;
    while i < n
        invariant
            0 <= i <= n,
            out@ == importable_name(name@).take(i as int),
        decreases n - i,
    {
        let ghost prev = out@;
        crate::dependency::push_char(&mut out, module_char_exec(name.get_char(i)));
        proof {
            assert(importable_name(name@).take(i + 1 as int) =~= prev.push(
                importable_name(name@)[i as int],
            ));
        }
        i += 1;
    }
    proof {
        assert(importable_name(name@).take(n as int) =~= importable_name(name@));
    }
    out
}

/// The script entry point a new application project starts with.
pub fn default_entrypoint_string(importable: &str) -> (r: String)
    ensures
        r@ == importable@ + ".main:main"@,
{
    let mut out = String::from_str(importable);
    out.append(".main:main");
    out
}

/// The fresh document a new library project is initialized with: the
/// template carrying the project's name. The caller must first have found
/// no metadata file; an existing one is never overwritten.
pub fn init_lib_project(project_name: &str) -> (m: Metadata)
    ensures
        m@ == template_view(project_name@),
        wf_doc(m@),
{
    Metadata::template(project_name)
}

/// The fresh document a new application project is initialized with: the
/// template carrying the project's name, plus a script entry point named
/// after the project. A name that does not read as a requirement is
/// rejected.
pub fn init_app_project(project_name: &str) -> (r: Result<Metadata, Error>)
    ensures
        match r {
            Ok(m) => parse_dependency(project_name@) matches Ok(d) && m@ == spec_add_script(
                template_view(project_name@),
                d.name,
                importable_name(d.name) + ".main:main"@,
            ),
            Err(e) => parse_dependency(project_name@) == Err::<DepView, Error>(e),
        },
{
    let dep = match Dependency::parse(project_name) {
        Ok(d) => d,
        Err(e) => {
            return Err(e);
        },
    };
    let mut m = Metadata::template(project_name);
    let importable = importable_package_name(dep.name.as_str());
    let entry = default_entrypoint_string(importable.as_str());
    m.add_script(dep.name.as_str(), entry.as_str());
    Ok(m)
}

// ---------------------------------------------------------------------------
// The laws the reconciliation keeps
// ---------------------------------------------------------------------------

/// Idempotence of add: adding the same requirement a second time leaves the
/// document exactly as one add left it — one entry, not two.
pub proof fn lemma_add_twice(m: MetadataView, d: DepView)
    ensures
        spec_add_dependency(spec_add_dependency(m, d), d) == spec_add_dependency(m, d),
{
    lemma_add_dep_list(m.dependencies, d);
    let m1 = spec_add_dependency(m, d);
    lemma_add_dep_list(m1.dependencies, d);
    assert(spec_add_dependency(m1, d) =~= m1);
}

/// Idempotence of remove: erasing a dependency that is not declared
/// anywhere leaves the document untouched.
pub proof fn lemma_remove_absent(m: MetadataView, n: Seq<char>)
    requires
        !doc_contains_any(m, n),
    ensures
        spec_remove_everywhere(m, n) == m,
{
    lemma_remove_name_list(m.dependencies, n);
    let gs = m.optional_dependencies;
    assert forall|k: int|
        0 <= k < gs.len() implies remove_name_list((#[trigger] gs[k]).dependencies, n)
        == gs[k].dependencies by {
        assert(!list_has_name(gs[k].dependencies, n));
        lemma_remove_name_list(gs[k].dependencies, n);
    }
    assert(crate::metadata::groups_remove_all(gs, n) =~= gs);
    assert(spec_remove_everywhere(m, n) =~= m);
}

/// Identity vs exact match: once a pinned form of a dependency is declared,
/// the bare name is declared by identity, while the bare unconstrained
/// requirement is still not declared exactly.
pub proof fn lemma_identity_vs_exact(m: MetadataView, pinned: DepView, bare: DepView)
    requires
        same_identity(pinned, bare),
        bare.specifier is Any,
        !(pinned.specifier is Any),
        !list_has_exact(m.dependencies, bare),
    ensures
        doc_contains_any(spec_add_dependency(m, pinned), normalize(bare.name)),
        !list_has_exact(spec_add_dependency(m, pinned).dependencies, bare),
{
    lemma_add_dep_list(m.dependencies, pinned);
    let nd = add_dep_list(m.dependencies, pinned);
    if list_has_exact(nd, bare) {
        let i = choose|i: int| 0 <= i < nd.len() && exact_match(nd[i], bare);
        if i < m.dependencies.len() && nd[i] == m.dependencies[i] {
            assert(list_has_exact(m.dependencies, bare));
        } else {
            assert(nd[i] == pinned);
        }
        assert(false);
    }
}

/// Version backfill: adding one version-less requirement whose package the
/// environment reports installed persists it pinned at exactly that
/// installed version, appended to the required list.
pub proof fn lemma_version_backfill(
    m: MetadataView,
    d: DepView,
    pkgs: Seq<PackageView>,
    p: PackageView,
)
    requires
        d.specifier is Any,
        find_package(pkgs, d.name) == Some(p),
        !list_has_name(m.dependencies, normalize(d.name)),
    ensures
        apply_additions(m, seq![d], pkgs).dependencies == m.dependencies.push(pinned_dep(p)),
{
    assert(seq![d].drop_last() =~= Seq::<DepView>::empty());
    assert(apply_additions(m, seq![d].drop_last(), pkgs) == m);
    assert(backfill_dep(d, pkgs) == pinned_dep(p));
    lemma_find_package_name(pkgs, d.name);
    assert(normalize(pinned_dep(p).name) == normalize(d.name));
}

/// A group lookup fails exactly when no group carries the literal name.
pub proof fn lemma_group_deps_none(gs: Seq<GroupView>, name: Seq<char>)
    ensures
        (group_deps(gs, name) is None) == !has_group(gs, name),
    decreases gs.len(),
{
    if gs.len() > 0 {
        let prefix = gs.drop_last();
        lemma_group_deps_none(prefix, name);
        if has_group(gs, name) {
            let i = choose|i: int| 0 <= i < gs.len() && gs[i].name == name;
            if i < gs.len() - 1 {
                assert(prefix[i].name == name);
                assert(has_group(prefix, name));
            }
            assert(group_deps(gs, name) is Some);
        } else {
            if has_group(prefix, name) {
                let i = choose|i: int| 0 <= i < prefix.len() && prefix[i].name == name;
                assert(gs[i].name == name);
            }
            assert(gs[gs.len() - 1].name != name);
        }
    }
}

proof fn lemma_selected_missing(m: MetadataView, gs: Seq<Seq<char>>)
    requires
        forall|k: int| 0 <= k < gs.len() ==> !has_group(m.optional_dependencies, #[trigger] gs[k]),
    ensures
        selected_from_groups(m, gs) == Seq::<DepView>::empty(),
    decreases gs.len(),
{
    if gs.len() > 0 {
        let prefix = gs.drop_last();
        assert(forall|k: int| 0 <= k < prefix.len() ==> !has_group(
            m.optional_dependencies,
            #[trigger] prefix[k],
        ));
        lemma_selected_missing(m, prefix);
        lemma_group_deps_none(m.optional_dependencies, gs.last());
        assert(gs[gs.len() - 1] == gs.last());
        assert(selected_from_groups(m, gs) =~= Seq::<DepView>::empty());
    }
}

/// Group semantics, missing groups: naming only groups the document does
/// not define, with the pseudo-group `required` not among them, selects an
/// empty install set — no error.
pub proof fn lemma_missing_groups_empty(m: MetadataView, gs: Seq<Seq<char>>)
    requires
        forall|k: int| 0 <= k < gs.len() ==> !has_group(m.optional_dependencies, #[trigger] gs[k]),
        !gs.contains("required"@),
    ensures
        dedup_by_name(selected_deps(m, Some(gs))) == Seq::<DepView>::empty(),
{
    lemma_selected_missing(m, gs);
    assert(dedup_by_name(Seq::<DepView>::empty()) =~= Seq::<DepView>::empty());
}

/// Group semantics, `required` fallback: requesting the pseudo-group
/// `required` when no optional group carries that literal name selects
/// exactly the required-dependency list.
pub proof fn lemma_required_fallback(m: MetadataView, gs: Seq<Seq<char>>)
    requires
        gs.contains("required"@),
        !has_group(m.optional_dependencies, "required"@),
    ensures
        selected_deps(m, Some(gs)) == m.dependencies,
{
}

proof fn lemma_remove_everywhere_contains(m: MetadataView, n: Seq<char>, x: Seq<char>)
    ensures
        doc_contains_any(spec_remove_everywhere(m, n), x) == (x != n && doc_contains_any(m, x)),
{
    lemma_remove_name_list(m.dependencies, n);
    let gs = m.optional_dependencies;
    let rg = crate::metadata::groups_remove_all(gs, n);
    assert forall|k: int| 0 <= k < gs.len() implies {
        &&& !list_has_name((#[trigger] rg[k]).dependencies, n)
        &&& (x != n ==> list_has_name(rg[k].dependencies, x) == list_has_name(
            gs[k].dependencies,
            x,
        ))
    } by {
        lemma_remove_name_list(gs[k].dependencies, n);
    }
    let r = spec_remove_everywhere(m, n);
    if doc_contains_any(r, x) {
        if list_has_name(r.dependencies, x) {
            assert(x != n && doc_contains_any(m, x));
        } else {
            let k = choose|k: int|
                0 <= k < r.optional_dependencies.len() && list_has_name(
                    r.optional_dependencies[k].dependencies,
                    x,
                );
            assert(r.optional_dependencies[k] == rg[k]);
            assert(x != n);
            assert(list_has_name(gs[k].dependencies, x));
        }
    }
    if x != n && doc_contains_any(m, x) {
        if list_has_name(m.dependencies, x) {
            assert(list_has_name(r.dependencies, x));
        } else {
            let k = choose|k: int|
                0 <= k < gs.len() && list_has_name((#[trigger] gs[k]).dependencies, x);
            assert(list_has_name(rg[k].dependencies, x));
            assert(r.optional_dependencies[k] == rg[k]);
        }
    }
}

/// Removal cascades: after a batch removal, none of the batch is declared
/// anywhere — not in the required list and not in any optional group.
pub proof fn lemma_removal_cascades(m: MetadataView, ds: Seq<DepView>)
    ensures
        forall|k: int|
            0 <= k < ds.len() ==> !doc_contains_any(
                apply_removals(m, ds),
                normalize((#[trigger] ds[k]).name),
            ),
    decreases ds.len(),
{
    if ds.len() > 0 {
        let prefix = ds.drop_last();
        lemma_removal_cascades(m, prefix);
        let prev = apply_removals(m, prefix);
        let nlast = normalize(ds.last().name);
        assert forall|k: int|
            0 <= k < ds.len() implies !doc_contains_any(
            apply_removals(m, ds),
            normalize((#[trigger] ds[k]).name),
        ) by {
            lemma_remove_everywhere_contains(prev, nlast, normalize(ds[k].name));
            if k < ds.len() - 1 {
                assert(prefix[k] == ds[k]);
                assert(!doc_contains_any(prev, normalize(ds[k].name)));
            }
        }
    }
}

} // verus!

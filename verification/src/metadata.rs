use vstd::prelude::*;

use crate::dependency::{dep_views, exact_match, normalize, texts_equal, DepView, Dependency};

verus! {

// ---------------------------------------------------------------------------
// The project metadata document
// ---------------------------------------------------------------------------

/// One named optional-dependency group.
#[derive(Debug)]
pub struct DependencyGroup {
    pub name: String,
    pub dependencies: Vec<Dependency>,
}

/// One script entry point, `name = "module.submodule:function"`.
#[derive(Debug)]
pub struct ScriptEntry {
    pub name: String,
    pub entrypoint: String,
}

/// The declared-dependency document of a project: its name, version and
/// description, the required dependencies in order, the optional-dependency
/// groups in order, and the script entry points.
#[derive(Debug)]
pub struct Metadata {
    pub project_name: String,
    pub project_version: Option<String>,
    pub description: Option<String>,
    pub dependencies: Vec<Dependency>,
    pub optional_dependencies: Vec<DependencyGroup>,
    pub scripts: Vec<ScriptEntry>,
}

#[verifier::ext_equal]
pub struct GroupView {
    pub name: Seq<char>,
    pub dependencies: Seq<DepView>,
}

#[verifier::ext_equal]
pub struct ScriptView {
    pub name: Seq<char>,
    pub entrypoint: Seq<char>,
}

#[verifier::ext_equal]
pub struct MetadataView {
    pub project_name: Seq<char>,
    pub project_version: Option<Seq<char>>,
    pub description: Option<Seq<char>>,
    pub dependencies: Seq<DepView>,
    pub optional_dependencies: Seq<GroupView>,
    pub scripts: Seq<ScriptView>,
}

impl View for DependencyGroup {
    type V = GroupView;

    open spec fn view(&self) -> GroupView {
        GroupView { name: self.name@, dependencies: dep_views(self.dependencies@) }
    }
}

impl View for ScriptEntry {
    type V = ScriptView;

    open spec fn view(&self) -> ScriptView {
        ScriptView { name: self.name@, entrypoint: self.entrypoint@ }
    }
}

impl View for Metadata {
    type V = MetadataView;

    open spec fn view(&self) -> MetadataView {
        MetadataView {
            project_name: self.project_name@,
            project_version: match &self.project_version {
                Some(v) => Some(v@),
                None => None,
            },
            description: match &self.description {
                Some(d) => Some(d@),
                None => None,
            },
            dependencies: dep_views(self.dependencies@),
            optional_dependencies: group_views(self.optional_dependencies@),
            scripts: script_views(self.scripts@),
        }
    }
}

pub open spec fn group_views(s: Seq<DependencyGroup>) -> Seq<GroupView> {
    s.map_values(|g: DependencyGroup| g@)
}

pub open spec fn script_views(s: Seq<ScriptEntry>) -> Seq<ScriptView> {
    s.map_values(|e: ScriptEntry| e@)
}

// ---------------------------------------------------------------------------
// What the document states, in the mathematical model
// ---------------------------------------------------------------------------

/// Some requirement in the list carries this normalized name.
pub open spec fn list_has_name(ds: Seq<DepView>, n: Seq<char>) -> bool {
    exists|i: int| 0 <= i < ds.len() && normalize(ds[i].name) == n
}

/// Some requirement in the list is an exact match of this one.
pub open spec fn list_has_exact(ds: Seq<DepView>, d: DepView) -> bool {
    exists|i: int| 0 <= i < ds.len() && exact_match(ds[i], d)
}

/// Some group carries this literal name.
pub open spec fn has_group(gs: Seq<GroupView>, name: Seq<char>) -> bool {
    exists|i: int| 0 <= i < gs.len() && gs[i].name == name
}

/// The dependency list of the first group with this literal name, if any.
pub open spec fn group_deps(gs: Seq<GroupView>, name: Seq<char>) -> Option<Seq<DepView>>
    decreases gs.len(),
{
    if gs.len() == 0 {
        None
    } else {
        match group_deps(gs.drop_last(), name) {
            Some(ds) => Some(ds),
            None => if gs.last().name == name {
                Some(gs.last().dependencies)
            } else {
                None
            },
        }
    }
}

/// The dependency is declared, by identity, in the required list or in some
/// optional group.
pub open spec fn doc_contains_any(m: MetadataView, n: Seq<char>) -> bool {
    list_has_name(m.dependencies, n) || exists|i: int|
        0 <= i < m.optional_dependencies.len() && list_has_name(
            m.optional_dependencies[i].dependencies,
            n,
        )
}

/// No two requirements of the list name the same dependency.
pub open spec fn unique_names(ds: Seq<DepView>) -> bool {
    forall|i: int, j: int|
        0 <= i < j < ds.len() ==> normalize(ds[i].name) != normalize(ds[j].name)
}

/// Group names are distinct, and every group holds distinct dependencies.
pub open spec fn wf_groups(gs: Seq<GroupView>) -> bool {
    (forall|i: int, j: int| 0 <= i < j < gs.len() ==> gs[i].name != gs[j].name) && (forall|i: int|
        0 <= i < gs.len() ==> unique_names(#[trigger] gs[i].dependencies))
}

/// The document invariant: within the required list and within each group no
/// two requirements share a normalized name, and group names are distinct.
pub open spec fn wf_doc(m: MetadataView) -> bool {
    unique_names(m.dependencies) && wf_groups(m.optional_dependencies)
}

// ---------------------------------------------------------------------------
// The document transformations
// ---------------------------------------------------------------------------

/// Appends the requirement unless one of the same identity is already
/// listed; adding a duplicate is a no-op.
pub open spec fn add_dep_list(ds: Seq<DepView>, d: DepView) -> Seq<DepView> {
    if list_has_name(ds, normalize(d.name)) {
        ds
    } else {
        ds.push(d)
    }
}

/// Removes every requirement of this normalized name, keeping the rest in
/// order.
pub open spec fn remove_name_list(ds: Seq<DepView>, n: Seq<char>) -> Seq<DepView>
    decreases ds.len(),
{
    if ds.len() == 0 {
        Seq::empty()
    } else if normalize(ds.last().name) == n {
        remove_name_list(ds.drop_last(), n)
    } else {
        remove_name_list(ds.drop_last(), n).push(ds.last())
    }
}

pub open spec fn spec_add_dependency(m: MetadataView, d: DepView) -> MetadataView {
    MetadataView { dependencies: add_dep_list(m.dependencies, d), ..m }
}

pub open spec fn spec_remove_dependency(m: MetadataView, n: Seq<char>) -> MetadataView {
    MetadataView { dependencies: remove_name_list(m.dependencies, n), ..m }
}

/// Adds to every group of this literal name, or opens the group when none
/// carries the name.
pub open spec fn groups_add(gs: Seq<GroupView>, d: DepView, g: Seq<char>) -> Seq<GroupView> {
    if has_group(gs, g) {
        gs.map_values(
            |gv: GroupView|
                if gv.name == g {
                    GroupView { name: gv.name, dependencies: add_dep_list(gv.dependencies, d) }
                } else {
                    gv
                },
        )
    } else {
        gs.push(GroupView { name: g, dependencies: seq![d] })
    }
}

/// Removes the name from every group of this literal name; a missing group
/// leaves the document unchanged.
pub open spec fn groups_remove(gs: Seq<GroupView>, n: Seq<char>, g: Seq<char>) -> Seq<GroupView> {
    gs.map_values(
        |gv: GroupView|
            if gv.name == g {
                GroupView { name: gv.name, dependencies: remove_name_list(gv.dependencies, n) }
            } else {
                gv
            },
    )
}

/// Removes the name from every group.
pub open spec fn groups_remove_all(gs: Seq<GroupView>, n: Seq<char>) -> Seq<GroupView> {
    gs.map_values(
        |gv: GroupView|
            GroupView { name: gv.name, dependencies: remove_name_list(gv.dependencies, n) },
    )
}

pub open spec fn spec_add_optional(m: MetadataView, d: DepView, g: Seq<char>) -> MetadataView {
    MetadataView { optional_dependencies: groups_add(m.optional_dependencies, d, g), ..m }
}

pub open spec fn spec_remove_optional(m: MetadataView, n: Seq<char>, g: Seq<char>) -> MetadataView {
    MetadataView { optional_dependencies: groups_remove(m.optional_dependencies, n, g), ..m }
}

/// Removes the name from the required list and from every group at once.
pub open spec fn spec_remove_everywhere(m: MetadataView, n: Seq<char>) -> MetadataView {
    MetadataView {
        dependencies: remove_name_list(m.dependencies, n),
        optional_dependencies: groups_remove_all(m.optional_dependencies, n),
        ..m
    }
}

/// Sets the entry point under this script name, replacing an entry of the
/// same name.
pub open spec fn set_script(ss: Seq<ScriptView>, name: Seq<char>, ep: Seq<char>) -> Seq<
    ScriptView,
> {
    if exists|i: int| 0 <= i < ss.len() && ss[i].name == name {
        ss.map_values(
            |sv: ScriptView|
                if sv.name == name {
                    ScriptView { name: sv.name, entrypoint: ep }
                } else {
                    sv
                },
        )
    } else {
        ss.push(ScriptView { name, entrypoint: ep })
    }
}

pub open spec fn spec_add_script(m: MetadataView, name: Seq<char>, ep: Seq<char>) -> MetadataView {
    MetadataView { scripts: set_script(m.scripts, name, ep), ..m }
}

// ---------------------------------------------------------------------------
// Facts about the transformations
// ---------------------------------------------------------------------------

/// Adding keeps the names distinct, lists the added name, and keeps every
/// other name exactly as it was.
pub proof fn lemma_add_dep_list(ds: Seq<DepView>, d: DepView)
    ensures
        unique_names(ds) ==> unique_names(add_dep_list(ds, d)),
        list_has_name(add_dep_list(ds, d), normalize(d.name)),
        forall|m: Seq<char>|
            m != normalize(d.name) ==> #[trigger] list_has_name(add_dep_list(ds, d), m)
                == list_has_name(ds, m),
        list_has_name(ds, normalize(d.name)) ==> add_dep_list(ds, d) == ds,
{
    if !list_has_name(ds, normalize(d.name)) {
        let r = ds.push(d);
        assert(normalize(r[ds.len() as int].name) == normalize(d.name));
        assert forall|m: Seq<char>|
            m != normalize(d.name) implies #[trigger] list_has_name(r, m) == list_has_name(
            ds,
            m,
        ) by {
            if list_has_name(r, m) {
                let i = choose|i: int| 0 <= i < r.len() && normalize(r[i].name) == m;
                assert(i < ds.len() && normalize(ds[i].name) == m);
            }
            if list_has_name(ds, m) {
                let i = choose|i: int| 0 <= i < ds.len() && normalize(ds[i].name) == m;
                assert(normalize(r[i].name) == m);
            }
        }
    }
}

/// Removal erases the name, keeps every other name, keeps distinctness, and
/// leaves a list without the name untouched.
pub proof fn lemma_remove_name_list(ds: Seq<DepView>, n: Seq<char>)
    ensures
        !list_has_name(remove_name_list(ds, n), n),
        forall|m: Seq<char>|
            m != n ==> #[trigger] list_has_name(remove_name_list(ds, n), m) == list_has_name(
                ds,
                m,
            ),
        unique_names(ds) ==> unique_names(remove_name_list(ds, n)),
        !list_has_name(ds, n) ==> remove_name_list(ds, n) == ds,
        forall|i: int|
            0 <= i < remove_name_list(ds, n).len() ==> ds.contains(
                #[trigger] remove_name_list(ds, n)[i],
            ),
    decreases ds.len(),
{
    let r = remove_name_list(ds, n);
    if ds.len() == 0 {
        assert(r =~= ds);
    } else {
        let prefix = ds.drop_last();
        lemma_remove_name_list(prefix, n);
        let rp = remove_name_list(prefix, n);
        assert forall|m: Seq<char>| m != n implies #[trigger] list_has_name(r, m)
            == list_has_name(ds, m) by {
            if list_has_name(r, m) {
                let i = choose|i: int| 0 <= i < r.len() && normalize(r[i].name) == m;
                if normalize(ds.last().name) == n || i < rp.len() {
                    assert(list_has_name(rp, m));
                    let k = choose|k: int| 0 <= k < prefix.len() && normalize(prefix[k].name) == m;
                    assert(normalize(ds[k].name) == m);
                } else {
                    assert(r[i] == ds.last());
                    assert(normalize(ds[ds.len() - 1].name) == m);
                }
            }
            if list_has_name(ds, m) {
                let i = choose|i: int| 0 <= i < ds.len() && normalize(ds[i].name) == m;
                if i < ds.len() - 1 {
                    assert(normalize(prefix[i].name) == m);
                    assert(list_has_name(rp, m));
                    let k = choose|k: int| 0 <= k < rp.len() && normalize(rp[k].name) == m;
                    if normalize(ds.last().name) != n {
                        assert(r[k] == rp[k]);
                    }
                    assert(list_has_name(r, m));
                } else {
                    assert(normalize(ds.last().name) == m);
                    assert(r[r.len() - 1] == ds.last());
                }
            }
        }
        if unique_names(ds) {
            assert(unique_names(prefix)) by {
                assert(forall|i: int|
                    0 <= i < prefix.len() ==> prefix[i] == ds[i]);
            }
            if normalize(ds.last().name) != n {
                assert forall|i: int, j: int|
                    0 <= i < j < r.len() implies normalize(r[i].name) != normalize(
                    r[j].name,
                ) by {
                    if j < r.len() - 1 {
                        assert(r[i] == rp[i] && r[j] == rp[j]);
                    } else {
                        assert(r[j] == ds.last());
                        assert(prefix.contains(rp[i]));
                        let k = choose|k: int| 0 <= k < prefix.len() && prefix[k] == rp[i];
                        assert(normalize(ds[k].name) != normalize(ds.last().name));
                    }
                }
            }
        }
        if !list_has_name(ds, n) {
            assert(forall|i: int| 0 <= i < prefix.len() ==> normalize(#[trigger] prefix[i].name) != n);
            assert(!list_has_name(prefix, n)) by {
                if list_has_name(prefix, n) {
                    let i = choose|i: int| 0 <= i < prefix.len() && normalize(prefix[i].name) == n;
                }
            }
            assert(normalize(ds.last().name) != n) by {
                assert(normalize(ds[ds.len() - 1].name) != n);
            }
            assert(r =~= ds);
        }
        assert forall|i: int| 0 <= i < r.len() implies ds.contains(#[trigger] r[i]) by {
            if normalize(ds.last().name) == n || i < r.len() - 1 {
                assert(prefix.contains(r[i])) by {
                    if normalize(ds.last().name) == n {
                        assert(prefix.contains(rp[i]));
                    } else {
                        assert(r[i] == rp[i]);
                        assert(prefix.contains(rp[i]));
                    }
                }
                let k = choose|k: int| 0 <= k < prefix.len() && prefix[k] == r[i];
                assert(ds[k] == r[i]);
            } else {
                assert(r[i] == ds.last());
                assert(ds[ds.len() - 1] == r[i]);
            }
        }
    }
}

// ---------------------------------------------------------------------------
// Helpers on dependency lists
// ---------------------------------------------------------------------------

/// Whether some requirement of the list names this dependency.
pub fn list_contains_name(ds: &Vec<Dependency>, name: &str) -> (r: bool)
    ensures
        r == list_has_name(dep_views(ds@), normalize(name@)),
{
    let mut i: usize = 0;
    while i < ds.len()
        invariant
            0 <= i <= ds.len(),
            forall|j: int|
                0 <= j < i ==> normalize(dep_views(ds@)[j].name) != normalize(name@),
        decreases ds.len() - i,
    {
        if crate::dependency::names_match(ds[i].name.as_str(), name) {
            proof {
                assert(dep_views(ds@)[i as int] == ds@[i as int]@);
            }
            return true;
        }
        i += 1;
    }
    false
}

/// Whether some requirement of the list matches this one exactly.
pub fn list_contains_exact(ds: &Vec<Dependency>, d: &Dependency) -> (r: bool)
    ensures
        r == list_has_exact(dep_views(ds@), d@),
{
    let mut i: usize = 0;
    while i < ds.len()
        invariant
            0 <= i <= ds.len(),
            forall|j: int| 0 <= j < i ==> !exact_match(dep_views(ds@)[j], d@),
        decreases ds.len() - i,
    {
        if ds[i].matches_exactly(d) {
            proof {
                assert(dep_views(ds@)[i as int] == ds@[i as int]@);
            }
            return true;
        }
        i += 1;
    }
    false
}

/// An identical copy of a dependency list.
#[verifier::loop_isolation(false)]
fn dup_deps(ds: &Vec<Dependency>) -> (r: Vec<Dependency>)
    ensures
        dep_views(r@) == dep_views(ds@),
{
    let mut out: Vec<Dependency> = Vec::new();
    let mut i: usize = 0;
    proof {
        assert(dep_views(out@) =~= dep_views(ds@).take(0));
    }
    while i < ds.len()
        invariant
            0 <= i <= ds.len(),
            dep_views(out@) == dep_views(ds@).take(i as int),
        decreases ds.len() - i,
    {
        let ghost prev = dep_views(out@);
        out.push(ds[i].duplicate());
        proof {
            assert(dep_views(out@) =~= prev.push(dep_views(ds@)[i as int]));
            assert(dep_views(ds@).take(i + 1 as int) =~= dep_views(ds@).take(i as int).push(
                dep_views(ds@)[i as int],
            ));
        }
        i += 1;
    }
    proof {
        assert(dep_views(ds@).take(ds.len() as int) =~= dep_views(ds@));
    }
    out
}

/// Appends unless a requirement of the same identity is already listed.
#[verifier::loop_isolation(false)]
fn push_unless_named(ds: &mut Vec<Dependency>, d: Dependency)
    ensures
        dep_views(final(ds)@) == add_dep_list(dep_views(old(ds)@), d@),
{
    let contained = list_contains_name(ds, d.name.as_str());
    if !contained {
        let ghost prev = dep_views(ds@);
        ds.push(d);
        proof {
            assert(dep_views(ds@) =~= prev.push(d@));
        }
    }
}

/// The list with every requirement of this name removed, the rest in order.
#[verifier::loop_isolation(false)]
fn remove_named(ds: &Vec<Dependency>, name: &str) -> (r: Vec<Dependency>)
    ensures
        dep_views(r@) == remove_name_list(dep_views(ds@), normalize(name@)),
{
    let mut out: Vec<Dependency> = Vec::new();
    let mut i: usize = 0;
    proof {
        assert(dep_views(ds@).take(0) =~= Seq::<DepView>::empty());
        assert(remove_name_list(dep_views(ds@).take(0), normalize(name@)) =~= dep_views(out@));
    }
    while i < ds.len()
        invariant
            0 <= i <= ds.len(),
            dep_views(out@) == remove_name_list(dep_views(ds@).take(i as int), normalize(name@)),
        decreases ds.len() - i,
    {
        proof {
            assert(dep_views(ds@).take(i + 1 as int).drop_last() =~= dep_views(ds@).take(i as int));
            assert(dep_views(ds@).take(i + 1 as int).last() == dep_views(ds@)[i as int]);
        }
        if !crate::dependency::names_match(ds[i].name.as_str(), name) {
            let ghost prev = dep_views(out@);
            out.push(ds[i].duplicate());
            proof {
                assert(dep_views(out@) =~= prev.push(dep_views(ds@)[i as int]));
            }
        }
        i += 1;
    }
    proof {
        assert(dep_views(ds@).take(ds.len() as int) =~= dep_views(ds@));
    }
    out
}

/// Whether two lists are equal requirement for requirement.
fn deps_equal(a: &Vec<Dependency>, b: &Vec<Dependency>) -> (r: bool)
    ensures
        r == (dep_views(a@) == dep_views(b@)),
{
    if a.len() != b.len() {
        proof {
            assert(dep_views(a@).len() != dep_views(b@).len());
        }
        return false;
    }
    let mut i: usize = 0;
    while i < a.len()
        invariant
            0 <= i <= a.len(),
            a.len() == b.len(),
            forall|j: int| 0 <= j < i ==> dep_views(a@)[j] == dep_views(b@)[j],
        decreases a.len() - i,
    {
        if !a[i].identical(&b[i]) {
            proof {
                assert(dep_views(a@)[i as int] != dep_views(b@)[i as int]);
            }
            return false;
        }
        i += 1;
    }
    proof {
        assert(dep_views(a@) =~= dep_views(b@));
    }
    true
}

// ---------------------------------------------------------------------------
// The document operations
// ---------------------------------------------------------------------------

/// The fresh document a new project starts from.
pub open spec fn template_view(project_name: Seq<char>) -> MetadataView {
    MetadataView {
        project_name,
        project_version: Some("0.0.1"@),
        description: Some(""@),
        dependencies: Seq::empty(),
        optional_dependencies: Seq::empty(),
        scripts: Seq::empty(),
    }
}

impl Metadata {
    /// A fresh document for a project of this name, with no dependencies, no
    /// groups and no scripts.
    pub fn template(project_name: &str) -> (m: Metadata)
        ensures
            m@ == template_view(project_name@),
            wf_doc(m@),
    {
        let m = Metadata {
            project_name: String::from_str(project_name),
            project_version: Some(String::from_str("0.0.1")),
            description: Some(String::from_str("")),
            dependencies: Vec::new(),
            optional_dependencies: Vec::new(),
            scripts: Vec::new(),
        };
        proof {
            assert(dep_views(m.dependencies@) =~= Seq::<DepView>::empty());
            assert(group_views(m.optional_dependencies@) =~= Seq::<GroupView>::empty());
            assert(script_views(m.scripts@) =~= Seq::<ScriptView>::empty());
            assert(m@ =~= template_view(project_name@));
        }
        m
    }

    pub fn project_name(&self) -> (r: &String)
        ensures
            r@ == self@.project_name,
    {
        &self.project_name
    }

    pub fn set_project_name(&mut self, name: String)
        ensures
            final(self)@ == (MetadataView { project_name: name@, ..old(self)@ }),
    {
        self.project_name = name;
        proof {
            assert(self@ =~= (MetadataView { project_name: self.project_name@, ..old(self)@ }));
        }
    }

    pub fn project_version(&self) -> (r: Option<&String>)
        ensures
            match r {
                Some(v) => self@.project_version == Some(v@),
                None => self@.project_version is None,
            },
    {
        self.project_version.as_ref()
    }

    pub fn dependencies(&self) -> (r: &Vec<Dependency>)
        ensures
            dep_views(r@) == self@.dependencies,
    {
        &self.dependencies
    }

    /// Exact-match query on the required list: is precisely this requirement
    /// declared?
    pub fn contains_dependency(&self, d: &Dependency) -> (r: bool)
        ensures
            r == list_has_exact(self@.dependencies, d@),
    {
        list_contains_exact(&self.dependencies, d)
    }

    /// Exact-match query inside the groups of this literal name.
    pub fn contains_optional_dependency(&self, d: &Dependency, group: &str) -> (r: bool)
        ensures
            r == exists|i: int|
                0 <= i < self@.optional_dependencies.len()
                    && #[trigger] self@.optional_dependencies[i].name == group@ && list_has_exact(
                    self@.optional_dependencies[i].dependencies,
                    d@,
                ),
    {
        let ghost gvs = group_views(self.optional_dependencies@);
        let mut i: usize = 0;
        while i < self.optional_dependencies.len()
            invariant
                0 <= i <= self.optional_dependencies.len(),
                gvs == group_views(self.optional_dependencies@),
                forall|j: int|
                    0 <= j < i ==> !(#[trigger] gvs[j].name == group@ && list_has_exact(
                        gvs[j].dependencies,
                        d@,
                    )),
            decreases self.optional_dependencies.len() - i,
        {
            proof {
                assert(gvs[i as int] == self.optional_dependencies@[i as int]@);
            }
            if texts_equal(self.optional_dependencies[i].name.as_str(), group)
                && list_contains_exact(&self.optional_dependencies[i].dependencies, d) {
                proof {
                    assert(0 <= i < self@.optional_dependencies.len()
                        && self@.optional_dependencies[i as int].name == group@ && list_has_exact(
                        self@.optional_dependencies[i as int].dependencies,
                        d@,
                    ));
                }
                return true;
            }
            i += 1;
        }
        false
    }

    /// Identity query inside the groups of this literal name: is some form
    /// of this dependency declared there?
    pub fn contains_optional_dependency_any(&self, d: &Dependency, group: &str) -> (r: bool)
        ensures
            r == exists|i: int|
                0 <= i < self@.optional_dependencies.len()
                    && #[trigger] self@.optional_dependencies[i].name == group@ && list_has_name(
                    self@.optional_dependencies[i].dependencies,
                    normalize(d@.name),
                ),
    {
        let ghost gvs = group_views(self.optional_dependencies@);
        let mut i: usize = 0;
        while i < self.optional_dependencies.len()
            invariant
                0 <= i <= self.optional_dependencies.len(),
                gvs == group_views(self.optional_dependencies@),
                forall|j: int|
                    0 <= j < i ==> !(#[trigger] gvs[j].name == group@ && list_has_name(
                        gvs[j].dependencies,
                        normalize(d@.name),
                    )),
            decreases self.optional_dependencies.len() - i,
        {
            proof {
                assert(gvs[i as int] == self.optional_dependencies@[i as int]@);
            }
            if texts_equal(self.optional_dependencies[i].name.as_str(), group)
                && list_contains_name(&self.optional_dependencies[i].dependencies, d.name.as_str()) {
                proof {
                    assert(0 <= i < self@.optional_dependencies.len()
                        && self@.optional_dependencies[i as int].name == group@ && list_has_name(
                        self@.optional_dependencies[i as int].dependencies,
                        normalize(d@.name),
                    ));
                }
                return true;
            }
            i += 1;
        }
        false
    }

    /// Identity query across the required list and every group: is some form
    /// of this dependency declared anywhere?
    pub fn contains_dependency_any(&self, d: &Dependency) -> (r: bool)
        ensures
            r == doc_contains_any(self@, normalize(d@.name)),
    {
        if list_contains_name(&self.dependencies, d.name.as_str()) {
            return true;
        }
        let ghost gvs = group_views(self.optional_dependencies@);
        let mut i: usize = 0;
        while i < self.optional_dependencies.len()
            invariant
                0 <= i <= self.optional_dependencies.len(),
                gvs == group_views(self.optional_dependencies@),
                forall|j: int|
                    0 <= j < i ==> !list_has_name(
                        (#[trigger] gvs[j]).dependencies,
                        normalize(d@.name),
                    ),
            decreases self.optional_dependencies.len() - i,
        {
            proof {
                assert(gvs[i as int] == self.optional_dependencies@[i as int]@);
            }
            if list_contains_name(&self.optional_dependencies[i].dependencies, d.name.as_str()) {
                proof {
                    assert(0 <= i < self@.optional_dependencies.len() && list_has_name(
                        self@.optional_dependencies[i as int].dependencies,
                        normalize(d@.name),
                    ));
                }
                return true;
            }
            i += 1;
        }
        false
    }

    /// Whether some optional group carries this literal name.
    pub fn has_optional_group(&self, name: &str) -> (r: bool)
        ensures
            r == has_group(self@.optional_dependencies, name@),
    {
        let ghost gvs = group_views(self.optional_dependencies@);
        let mut i: usize = 0;
        while i < self.optional_dependencies.len()
            invariant
                0 <= i <= self.optional_dependencies.len(),
                gvs == group_views(self.optional_dependencies@),
                forall|j: int| 0 <= j < i ==> (#[trigger] gvs[j]).name != name@,
            decreases self.optional_dependencies.len() - i,
        {
            proof {
                assert(gvs[i as int] == self.optional_dependencies@[i as int]@);
            }
            if texts_equal(self.optional_dependencies[i].name.as_str(), name) {
                return true;
            }
            i += 1;
        }
        false
    }

    /// The dependencies of the first group with this literal name, copied,
    /// if any group carries it.
    #[verifier::loop_isolation(false)]
    pub fn group_dependencies(&self, name: &str) -> (r: Option<Vec<Dependency>>)
        ensures
            match r {
                Some(ds) => group_deps(self@.optional_dependencies, name@) == Some(
                    dep_views(ds@),
                ),
                None => group_deps(self@.optional_dependencies, name@) is None,
            },
    {
        let ghost gvs = group_views(self.optional_dependencies@);
        let mut i: usize = 0;
        proof {
            assert(gvs.take(0) =~= Seq::<GroupView>::empty());
        }
        while i < self.optional_dependencies.len()
            invariant
                0 <= i <= self.optional_dependencies.len(),
                group_deps(gvs.take(i as int), name@) is None,
            decreases self.optional_dependencies.len() - i,
        {
            proof {
                assert(gvs.take(i + 1 as int).drop_last() =~= gvs.take(i as int));
                assert(gvs[i as int] == self.optional_dependencies@[i as int]@);
            }
            if texts_equal(self.optional_dependencies[i].name.as_str(), name) {
                let ds = dup_deps(&self.optional_dependencies[i].dependencies);
                proof {
                    assert(group_deps(gvs.take(i + 1 as int), name@) == Some(
                        gvs[i as int].dependencies,
                    ));
                    lemma_group_deps_extend(gvs, name@, i + 1 as int);
                }
                return Some(ds);
            }
            i += 1;
        }
        proof {
            assert(gvs.take(self.optional_dependencies.len() as int) =~= gvs);
        }
        None
    }

    /// Adds a required dependency; a requirement of the same identity
    /// already listed makes this a no-op.
    pub fn add_dependency(&mut self, d: Dependency)
        ensures
            final(self)@ == spec_add_dependency(old(self)@, d@),
            wf_doc(old(self)@) ==> wf_doc(final(self)@),
    {
        push_unless_named(&mut self.dependencies, d);
        proof {
            assert(self@ =~= spec_add_dependency(old(self)@, d@));
            lemma_add_dep_list(old(self)@.dependencies, d@);
        }
    }

    /// Removes the dependency, by identity, from the required list; absence
    /// makes this a no-op.
    pub fn remove_dependency(&mut self, d: &Dependency)
        ensures
            final(self)@ == spec_remove_dependency(old(self)@, normalize(d@.name)),
            wf_doc(old(self)@) ==> wf_doc(final(self)@),
    {
        let nd = remove_named(&self.dependencies, d.name.as_str());
        self.dependencies = nd;
        proof {
            assert(self@ =~= spec_remove_dependency(old(self)@, normalize(d@.name)));
            lemma_remove_name_list(old(self)@.dependencies, normalize(d@.name));
        }
    }

    /// Adds to the group of this name, opening the group when absent; a
    /// requirement of the same identity already in the group makes this a
    /// no-op.
    #[verifier::loop_isolation(false)]
    pub fn add_optional_dependency(&mut self, d: Dependency, group: &str)
        ensures
            final(self)@ == spec_add_optional(old(self)@, d@, group@),
            wf_doc(old(self)@) ==> wf_doc(final(self)@),
    {
        let ghost gvs = group_views(self.optional_dependencies@);
        let mut out: Vec<DependencyGroup> = Vec::new();
        let mut found = false;
        let mut i: usize = 0;
        while i < self.optional_dependencies.len()
            invariant
                0 <= i <= self.optional_dependencies.len(),
                out.len() == i,
                found == exists|j: int| 0 <= j < i && (#[trigger] gvs[j]).name == group@,
                forall|j: int|
                    0 <= j < i ==> group_views(out@)[j] == (if (#[trigger] gvs[j]).name == group@ {
                        GroupView {
                            name: gvs[j].name,
                            dependencies: add_dep_list(gvs[j].dependencies, d@),
                        }
                    } else {
                        gvs[j]
                    }),
            decreases self.optional_dependencies.len() - i,
        {
            proof {
                assert(gvs[i as int] == self.optional_dependencies@[i as int]@);
            }
            let g = &self.optional_dependencies[i];
            if texts_equal(g.name.as_str(), group) {
                let mut nds = dup_deps(&g.dependencies);
                push_unless_named(&mut nds, d.duplicate());
                out.push(DependencyGroup { name: g.name.clone(), dependencies: nds });
                found = true;
            } else {
                out.push(
                    DependencyGroup { name: g.name.clone(), dependencies: dup_deps(&g.dependencies) },
                );
            }
            proof {
                assert(group_views(out@)[i as int] == out@[i as int]@);
            }
            i += 1;
        }
        if !found {
            let mut nds: Vec<Dependency> = Vec::new();
            nds.push(d);
            out.push(DependencyGroup { name: String::from_str(group), dependencies: nds });
            proof {
                assert(group_views(out@)[gvs.len() as int] == out@[gvs.len() as int]@);
                assert(dep_views(out@[gvs.len() as int].dependencies@) =~= seq![d@]);
            }
        }
        self.optional_dependencies = out;
        proof {
            if has_group(gvs, group@) {
                assert(group_views(self.optional_dependencies@) =~= groups_add(gvs, d@, group@));
            } else {
                assert(group_views(self.optional_dependencies@) =~= groups_add(gvs, d@, group@));
            }
            assert(self@ =~= spec_add_optional(old(self)@, d@, group@));
            if wf_doc(old(self)@) {
                assert forall|k: int|
                    0 <= k < groups_add(gvs, d@, group@).len() implies unique_names(
                    (#[trigger] groups_add(gvs, d@, group@)[k]).dependencies,
                ) by {
                    if k < gvs.len() {
                        lemma_add_dep_list(gvs[k].dependencies, d@);
                    }
                }
            }
        }
    }

    /// Removes the dependency, by identity, from the groups of this literal
    /// name; a missing group or an absent dependency makes this a no-op.
    #[verifier::loop_isolation(false)]
    pub fn remove_optional_dependency(&mut self, d: &Dependency, group: &str)
        ensures
            final(self)@ == spec_remove_optional(old(self)@, normalize(d@.name), group@),
            wf_doc(old(self)@) ==> wf_doc(final(self)@),
    {
        let ghost gvs = group_views(self.optional_dependencies@);
        let ghost n = normalize(d@.name);
        let mut out: Vec<DependencyGroup> = Vec::new();
        let mut i: usize = 0;
        while i < self.optional_dependencies.len()
            invariant
                0 <= i <= self.optional_dependencies.len(),
                out.len() == i,
                forall|j: int|
                    0 <= j < i ==> group_views(out@)[j] == (if (#[trigger] gvs[j]).name == group@ {
                        GroupView {
                            name: gvs[j].name,
                            dependencies: remove_name_list(gvs[j].dependencies, n),
                        }
                    } else {
                        gvs[j]
                    }),
            decreases self.optional_dependencies.len() - i,
        {
            proof {
                assert(gvs[i as int] == self.optional_dependencies@[i as int]@);
            }
            let g = &self.optional_dependencies[i];
            if texts_equal(g.name.as_str(), group) {
                out.push(
                    DependencyGroup {
                        name: g.name.clone(),
                        dependencies: remove_named(&g.dependencies, d.name.as_str()),
                    },
                );
            } else {
                out.push(
                    DependencyGroup { name: g.name.clone(), dependencies: dup_deps(&g.dependencies) },
                );
            }
            proof {
                assert(group_views(out@)[i as int] == out@[i as int]@);
            }
            i += 1;
        }
        self.optional_dependencies = out;
        proof {
            assert(group_views(self.optional_dependencies@) =~= groups_remove(gvs, n, group@));
            assert(self@ =~= spec_remove_optional(old(self)@, n, group@));
            if wf_doc(old(self)@) {
                assert forall|k: int|
                    0 <= k < groups_remove(gvs, n, group@).len() implies unique_names(
                    (#[trigger] groups_remove(gvs, n, group@)[k]).dependencies,
                ) by {
                    lemma_remove_name_list(gvs[k].dependencies, n);
                }
            }
        }
    }

    /// Removes the dependency, by identity, from the required list and from
    /// every optional group.
    #[verifier::loop_isolation(false)]
    pub fn remove_dependency_everywhere(&mut self, d: &Dependency)
        ensures
            final(self)@ == spec_remove_everywhere(old(self)@, normalize(d@.name)),
            wf_doc(old(self)@) ==> wf_doc(final(self)@),
    {
        let ghost gvs = group_views(self.optional_dependencies@);
        let ghost n = normalize(d@.name);
        let nd = remove_named(&self.dependencies, d.name.as_str());
        self.dependencies = nd;
        let mut out: Vec<DependencyGroup> = Vec::new();
        let mut i: usize = 0;
        while i < self.optional_dependencies.len()
            invariant
                0 <= i <= self.optional_dependencies.len(),
                out.len() == i,
                forall|j: int|
                    0 <= j < i ==> group_views(out@)[j] == (GroupView {
                        name: (#[trigger] gvs[j]).name,
                        dependencies: remove_name_list(gvs[j].dependencies, n),
                    }),
            decreases self.optional_dependencies.len() - i,
        {
            proof {
                assert(gvs[i as int] == self.optional_dependencies@[i as int]@);
            }
            let g = &self.optional_dependencies[i];
            out.push(
                DependencyGroup {
                    name: g.name.clone(),
                    dependencies: remove_named(&g.dependencies, d.name.as_str()),
                },
            );
            proof {
                assert(group_views(out@)[i as int] == out@[i as int]@);
            }
            i += 1;
        }
        self.optional_dependencies = out;
        proof {
            assert(group_views(self.optional_dependencies@) =~= groups_remove_all(gvs, n));
            assert(self@ =~= spec_remove_everywhere(old(self)@, n));
            lemma_remove_name_list(old(self)@.dependencies, n);
            if wf_doc(old(self)@) {
                assert forall|k: int|
                    0 <= k < groups_remove_all(gvs, n).len() implies unique_names(
                    (#[trigger] groups_remove_all(gvs, n)[k]).dependencies,
                ) by {
                    lemma_remove_name_list(gvs[k].dependencies, n);
                }
            }
        }
    }

    /// Sets a script entry point, replacing an entry of the same name.
    #[verifier::loop_isolation(false)]
    pub fn add_script(&mut self, name: &str, entrypoint: &str)
        ensures
            final(self)@ == spec_add_script(old(self)@, name@, entrypoint@),
    {
        let ghost svs = script_views(self.scripts@);
        let mut out: Vec<ScriptEntry> = Vec::new();
        let mut found = false;
        let mut i: usize = 0;
        while i < self.scripts.len()
            invariant
                0 <= i <= self.scripts.len(),
                out.len() == i,
                found == exists|j: int| 0 <= j < i && (#[trigger] svs[j]).name == name@,
                forall|j: int|
                    0 <= j < i ==> script_views(out@)[j] == (if (#[trigger] svs[j]).name == name@ {
                        ScriptView { name: svs[j].name, entrypoint: entrypoint@ }
                    } else {
                        svs[j]
                    }),
            decreases self.scripts.len() - i,
        {
            proof {
                assert(svs[i as int] == self.scripts@[i as int]@);
            }
            let e = &self.scripts[i];
            if texts_equal(e.name.as_str(), name) {
                out.push(
                    ScriptEntry { name: e.name.clone(), entrypoint: String::from_str(entrypoint) },
                );
                found = true;
            } else {
                out.push(ScriptEntry { name: e.name.clone(), entrypoint: e.entrypoint.clone() });
            }
            proof {
                assert(script_views(out@)[i as int] == out@[i as int]@);
            }
            i += 1;
        }
        if !found {
            out.push(
                ScriptEntry {
                    name: String::from_str(name),
                    entrypoint: String::from_str(entrypoint),
                },
            );
            proof {
                assert(script_views(out@)[svs.len() as int] == out@[svs.len() as int]@);
            }
        }
        self.scripts = out;
        proof {
            assert(script_views(self.scripts@) =~= set_script(svs, name@, entrypoint@));
            assert(self@ =~= spec_add_script(old(self)@, name@, entrypoint@));
        }
    }

    /// Whether the two documents are equal field for field; the write gate
    /// of every operation compares with this.
    pub fn same_document(&self, other: &Metadata) -> (r: bool)
        ensures
            r == (self@ == other@),
    {
        if !(self.project_name == other.project_name) {
            return false;
        }
        match (&self.project_version, &other.project_version) {
            (Some(a), Some(b)) => if !(*a == *b) {
                return false;
            },
            (None, None) => {
            },
            _ => {
                return false;
            },
        }
        match (&self.description, &other.description) {
            (Some(a), Some(b)) => if !(*a == *b) {
                return false;
            },
            (None, None) => {
            },
            _ => {
                return false;
            },
        }
        if !deps_equal(&self.dependencies, &other.dependencies) {
            return false;
        }
        if self.optional_dependencies.len() != other.optional_dependencies.len() {
            proof {
                assert(group_views(self.optional_dependencies@).len() != group_views(
                    other.optional_dependencies@,
                ).len());
            }
            return false;
        }
        let ghost ga = group_views(self.optional_dependencies@);
        let ghost gb = group_views(other.optional_dependencies@);
        let mut i: usize = 0;
        while i < self.optional_dependencies.len()
            invariant
                0 <= i <= self.optional_dependencies.len(),
                self.optional_dependencies.len() == other.optional_dependencies.len(),
                ga == group_views(self.optional_dependencies@),
                gb == group_views(other.optional_dependencies@),
                forall|j: int| 0 <= j < i ==> ga[j] == gb[j],
            decreases self.optional_dependencies.len() - i,
        {
            proof {
                assert(ga[i as int] == self.optional_dependencies@[i as int]@);
                assert(gb[i as int] == other.optional_dependencies@[i as int]@);
            }
            let x = &self.optional_dependencies[i];
            let y = &other.optional_dependencies[i];
            if !(x.name == y.name) || !deps_equal(&x.dependencies, &y.dependencies) {
                proof {
                    assert(ga[i as int] != gb[i as int]);
                }
                return false;
            }
            proof {
                assert(ga[i as int] =~= gb[i as int]);
            }
            i += 1;
        }
        if self.scripts.len() != other.scripts.len() {
            proof {
                assert(script_views(self.scripts@).len() != script_views(other.scripts@).len());
            }
            return false;
        }
        let ghost sa = script_views(self.scripts@);
        let ghost sb = script_views(other.scripts@);
        let mut i: usize = 0;
        while i < self.scripts.len()
            invariant
                0 <= i <= self.scripts.len(),
                self.scripts.len() == other.scripts.len(),
                sa == script_views(self.scripts@),
                sb == script_views(other.scripts@),
                forall|j: int| 0 <= j < i ==> sa[j] == sb[j],
            decreases self.scripts.len() - i,
        {
            proof {
                assert(sa[i as int] == self.scripts@[i as int]@);
                assert(sb[i as int] == other.scripts@[i as int]@);
            }
            let x = &self.scripts[i];
            let y = &other.scripts[i];
            if !(x.name == y.name) || !(x.entrypoint == y.entrypoint) {
                proof {
                    assert(sa[i as int] != sb[i as int]);
                }
                return false;
            }
            proof {
                assert(sa[i as int] =~= sb[i as int]);
            }
            i += 1;
        }
        proof {
            assert(ga =~= gb);
            assert(sa =~= sb);
            assert(self@ =~= other@);
        }
        true
    }

    /// An identical copy of the whole document.
    #[verifier::loop_isolation(false)]
    pub fn duplicate(&self) -> (r: Metadata)
        ensures
            r@ == self@,
    {
        let mut groups: Vec<DependencyGroup> = Vec::new();
        let mut i: usize = 0;
        while i < self.optional_dependencies.len()
            invariant
                0 <= i <= self.optional_dependencies.len(),
                group_views(groups@) == group_views(self.optional_dependencies@).take(i as int),
            decreases self.optional_dependencies.len() - i,
        {
            let ghost prev = group_views(groups@);
            let g = &self.optional_dependencies[i];
            groups.push(
                DependencyGroup { name: g.name.clone(), dependencies: dup_deps(&g.dependencies) },
            );
            proof {
                assert(group_views(groups@)[i as int] == groups@[i as int]@);
                assert(groups@[i as int]@ =~= self.optional_dependencies@[i as int]@);
                assert(group_views(groups@) =~= prev.push(
                    group_views(self.optional_dependencies@)[i as int],
                ));
                assert(group_views(self.optional_dependencies@).take(i + 1 as int) =~= group_views(
                    self.optional_dependencies@,
                ).take(i as int).push(group_views(self.optional_dependencies@)[i as int]));
            }
            i += 1;
        }
        let mut scripts: Vec<ScriptEntry> = Vec::new();
        let mut i: usize = 0;
        while i < self.scripts.len()
            invariant
                0 <= i <= self.scripts.len(),
                script_views(scripts@) == script_views(self.scripts@).take(i as int),
            decreases self.scripts.len() - i,
        {
            let ghost prev = script_views(scripts@);
            let e = &self.scripts[i];
            scripts.push(ScriptEntry { name: e.name.clone(), entrypoint: e.entrypoint.clone() });
            proof {
                assert(script_views(scripts@)[i as int] == scripts@[i as int]@);
                assert(script_views(scripts@) =~= prev.push(
                    script_views(self.scripts@)[i as int],
                ));
                assert(script_views(self.scripts@).take(i + 1 as int) =~= script_views(
                    self.scripts@,
                ).take(i as int).push(script_views(self.scripts@)[i as int]));
            }
            i += 1;
        }
        let m = Metadata {
            project_name: self.project_name.clone(),
            project_version: match &self.project_version {
                Some(v) => Some(v.clone()),
                None => None,
            },
            description: match &self.description {
                Some(v) => Some(v.clone()),
                None => None,
            },
            dependencies: dup_deps(&self.dependencies),
            optional_dependencies: groups,
            scripts,
        };
        proof {
            assert(group_views(self.optional_dependencies@).take(
                self.optional_dependencies.len() as int,
            ) =~= group_views(self.optional_dependencies@));
            assert(script_views(self.scripts@).take(self.scripts.len() as int) =~= script_views(
                self.scripts@,
            ));
            assert(m@ =~= self@);
        }
        m
    }
}

proof fn lemma_group_deps_extend(gs: Seq<GroupView>, name: Seq<char>, m: int)
    requires
        0 <= m <= gs.len(),
        group_deps(gs.take(m), name) is Some,
    ensures
        group_deps(gs, name) == group_deps(gs.take(m), name),
    decreases gs.len() - m,
{
    if m < gs.len() {
        assert(gs.take(m + 1).drop_last() =~= gs.take(m));
        lemma_group_deps_extend(gs, name, m + 1);
    } else {
        assert(gs.take(m) =~= gs);
    }
}

} // verus!

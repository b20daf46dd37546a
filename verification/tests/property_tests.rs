use huak::dependency::Dependency;
use huak::metadata::Metadata;
use huak::ops::{
    add_project_dependencies, add_project_optional_dependencies, install_project_dependencies,
    plan_additions, plan_optional_additions, remove_project_dependencies,
};
use huak::python_environment::{contains_module, missing_tools, Package};

fn dep(text: &str) -> Dependency {
    Dependency::parse(text).unwrap()
}

#[test]
fn adding_twice_produces_one_entry() {
    let mut metadata = Metadata::template("mock-project");
    metadata.add_dependency(dep("click==8.1.3"));
    metadata.add_dependency(dep("click==8.1.3"));
    assert_eq!(metadata.dependencies().len(), 1);

    // A second add of the same dependency plans no work at all.
    let planned = plan_additions(&metadata, &vec![String::from("click==8.1.3")]).unwrap();
    assert!(planned.is_empty());
}

#[test]
fn removing_absent_dependency_is_a_noop() {
    let mut metadata = Metadata::template("mock-project");
    metadata.add_dependency(dep("click==8.1.3"));

    let outcome = remove_project_dependencies(&metadata, &vec![String::from("ruff")]).unwrap();

    assert!(outcome.to_uninstall.is_empty());
    assert!(!outcome.write_needed);
    assert!(outcome.metadata.same_document(&metadata));
}

#[test]
fn identity_match_differs_from_exact_match() {
    let mut metadata = Metadata::template("mock-project");
    metadata.add_dependency(dep("pkg==1.0"));

    assert!(metadata.contains_dependency_any(&dep("pkg")));
    assert!(!metadata.contains_dependency(&dep("pkg")));
    assert!(metadata.contains_dependency(&dep("pkg==1.0")));
}

#[test]
fn unchanged_document_asks_for_no_write() {
    let mut metadata = Metadata::template("mock-project");
    metadata.add_dependency(dep("click==8.1.3"));

    assert!(metadata.same_document(&metadata));

    // A loaded document, reconciled with nothing to do, is not written back.
    let planned: Vec<Dependency> = Vec::new();
    let installed: Vec<Package> = Vec::new();
    let outcome = add_project_dependencies(&metadata, &planned, &installed);
    assert!(!outcome.write_needed);
    assert!(outcome.metadata.same_document(&metadata));
}

#[test]
fn versionless_add_is_pinned_to_installed_version() {
    let metadata = Metadata::template("mock-project");
    let planned = plan_additions(&metadata, &vec![String::from("ruff")]).unwrap();
    let installed = vec![Package::parse("ruff==0.2.2").unwrap()];

    let outcome = add_project_dependencies(&metadata, &planned, &installed);

    let deps = outcome.metadata.dependencies();
    assert_eq!(deps.len(), 1);
    assert_eq!(deps[0].requirement_text().as_str(), "ruff==0.2.2");
}

#[test]
fn missing_group_yields_empty_install_set() {
    let mut metadata = Metadata::template("mock-project");
    metadata.add_dependency(dep("click==8.1.3"));

    let batch = install_project_dependencies(&metadata, Some(&vec![String::from("dev")]));
    assert!(batch.is_empty());
}

#[test]
fn required_pseudo_group_installs_required_list() {
    let mut metadata = Metadata::template("mock-project");
    metadata.add_dependency(dep("click==8.1.3"));
    metadata.add_optional_dependency(dep("pytest"), "dev");

    let batch = install_project_dependencies(&metadata, Some(&vec![String::from("required")]));

    assert_eq!(batch.len(), 1);
    assert_eq!(batch[0].requirement_text().as_str(), "click==8.1.3");
}

#[test]
fn literal_required_group_takes_precedence() {
    let mut metadata = Metadata::template("mock-project");
    metadata.add_dependency(dep("click==8.1.3"));
    metadata.add_optional_dependency(dep("pytest"), "required");

    let batch = install_project_dependencies(&metadata, Some(&vec![String::from("required")]));

    assert_eq!(batch.len(), 1);
    assert_eq!(batch[0].requirement_text().as_str(), "pytest");
}

#[test]
fn removal_cascades_through_every_group() {
    let mut metadata = Metadata::template("mock-project");
    metadata.add_dependency(dep("black==22.8.0"));
    metadata.add_optional_dependency(dep("black==22.8.0"), "dev");
    metadata.add_optional_dependency(dep("black"), "lint");
    metadata.add_optional_dependency(dep("pytest"), "dev");

    let outcome = remove_project_dependencies(&metadata, &vec![String::from("black")]).unwrap();

    assert!(!outcome.metadata.contains_dependency_any(&dep("black")));
    assert!(outcome
        .metadata
        .contains_optional_dependency(&dep("pytest"), "dev"));
    assert_eq!(outcome.to_uninstall.len(), 1);
    assert!(outcome.write_needed);
}

#[test]
fn optional_add_filters_within_its_group() {
    let mut metadata = Metadata::template("mock-project");
    metadata.add_dependency(dep("click==8.1.3"));

    // Already declared in the required list: a plain add plans nothing,
    // while an add aimed at the dev group still has work to do.
    let planned = plan_additions(&metadata, &vec![String::from("click")]).unwrap();
    assert!(planned.is_empty());
    let planned = plan_optional_additions(&metadata, &vec![String::from("click")], "dev").unwrap();
    assert_eq!(planned.len(), 1);

    metadata.add_optional_dependency(dep("click==8.1.3"), "dev");
    let planned = plan_optional_additions(&metadata, &vec![String::from("click")], "dev").unwrap();
    assert!(planned.is_empty());
}

#[test]
fn only_tools_the_environment_lacks_are_installed() {
    let tools = vec![dep("black"), dep("ruff")];
    let installed = vec![Package::parse("ruff==0.2.2").unwrap()];
    let to_install = missing_tools(&tools, &installed);
    assert_eq!(to_install.len(), 1);
    assert_eq!(to_install[0].name.as_str(), "black");
}

#[test]
fn end_to_end_dev_group_lifecycle() {
    let mut metadata = Metadata::template("mock-project");
    metadata.add_optional_dependency(dep("wheel"), "dev");
    let outcome = remove_project_dependencies(&metadata, &vec![String::from("wheel")]).unwrap();
    let metadata = outcome.metadata;
    assert!(!metadata.contains_dependency_any(&dep("wheel")));

    // Add pytest to the now-empty dev group.
    let planned =
        plan_optional_additions(&metadata, &vec![String::from("pytest")], "dev").unwrap();
    let installed = vec![Package::parse("pytest==7.4.0").unwrap()];
    let added = add_project_optional_dependencies(&metadata, &planned, "dev", &installed);

    assert!(added.metadata.dependencies().is_empty());
    let dev = added.metadata.group_dependencies("dev").unwrap();
    assert_eq!(dev.len(), 1);
    assert_eq!(dev[0].requirement_text().as_str(), "pytest==7.4.0");
    assert!(contains_module(&installed, "pytest"));

    // Remove pytest again: the dev group empties, and the batch names it
    // for the uninstaller.
    let removed = remove_project_dependencies(&added.metadata, &vec![String::from("pytest")])
        .unwrap();
    assert!(removed.metadata.group_dependencies("dev").unwrap().is_empty());
    assert_eq!(removed.to_uninstall.len(), 1);
    let emptied: Vec<Package> = Vec::new();
    assert!(!contains_module(&emptied, "pytest"));
}

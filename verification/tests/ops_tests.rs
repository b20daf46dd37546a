use huak::dependency::Dependency;
use huak::metadata::Metadata;
use huak::ops::{
    add_project_dependencies, add_project_optional_dependencies, init_app_project,
    init_lib_project, install_project_dependencies, plan_additions, plan_update,
    remove_project_dependencies, update_project_dependencies,
};
use huak::python_environment::{contains_module, contains_package, Package};

fn pkg(text: &str) -> Package {
    Package::parse(text).unwrap()
}

fn dep(text: &str) -> Dependency {
    Dependency::parse(text).unwrap()
}

#[test]
fn test_add_project_dependencies() {
    let metadata = Metadata::template("mock-project");
    let planned = plan_additions(&metadata, &vec![String::from("ruff")]).unwrap();
    assert_eq!(planned.len(), 1);

    // The environment after the batched install reports ruff at a concrete
    // version; the reconciliation pins the requirement at it.
    let installed = vec![pkg("click==8.1.3"), pkg("ruff==0.2.2")];
    let outcome = add_project_dependencies(&metadata, &planned, &installed);

    assert!(contains_module(&installed, "ruff"));
    assert!(outcome
        .metadata
        .contains_dependency(&dep("ruff==0.2.2")));
    assert!(outcome.metadata.contains_dependency_any(&dep("ruff")));
    assert!(outcome.write_needed);
}

#[test]
fn test_add_optional_project_dependencies() {
    let metadata = Metadata::template("mock-project");
    let group = "dev";
    let planned = plan_additions(&metadata, &vec![String::from("ruff")]).unwrap();
    let installed = vec![pkg("ruff==0.2.2")];
    let outcome = add_project_optional_dependencies(&metadata, &planned, group, &installed);

    assert!(contains_module(&installed, "ruff"));
    assert!(outcome
        .metadata
        .contains_optional_dependency(&dep("ruff==0.2.2"), "dev"));
    assert!(outcome.metadata.dependencies().is_empty());
}

#[test]
fn test_init_lib_project() {
    let metadata = init_lib_project("mock-project");
    assert_eq!(metadata.project_name().as_str(), "mock-project");
    assert_eq!(metadata.project_version().unwrap().as_str(), "0.0.1");
    assert!(metadata.dependencies().is_empty());
    assert!(metadata.scripts.is_empty());
}

#[test]
fn test_init_app_project() {
    let metadata = init_app_project("mock-project").unwrap();
    assert_eq!(metadata.project_name().as_str(), "mock-project");
    assert_eq!(metadata.scripts.len(), 1);
    assert_eq!(metadata.scripts[0].name.as_str(), "mock-project");
    assert_eq!(metadata.scripts[0].entrypoint.as_str(), "mock_project.main:main");
}

#[test]
fn test_install_project_dependencies() {
    let mut metadata = Metadata::template("mock-project");
    metadata.add_dependency(dep("click==8.1.3"));

    let batch = install_project_dependencies(&metadata, None);

    assert_eq!(batch.len(), 1);
    assert_eq!(batch[0].requirement_text().as_str(), "click==8.1.3");
    let installed = vec![pkg("click==8.1.3")];
    assert!(contains_package(&installed, &pkg("click==8.1.3")));
}

#[test]
fn test_install_project_optional_dependencies() {
    let mut metadata = Metadata::template("mock-project");
    metadata.add_optional_dependency(dep("pytest"), "dev");

    let batch = install_project_dependencies(&metadata, Some(&vec![String::from("dev")]));

    assert_eq!(batch.len(), 1);
    assert_eq!(batch[0].requirement_text().as_str(), "pytest");
    let installed = vec![pkg("pytest==7.4.0")];
    assert!(contains_module(&installed, "pytest"));
}

#[test]
fn test_remove_project_dependencies() {
    let mut metadata = Metadata::template("mock-project");
    metadata.add_dependency(dep("click==8.1.3"));
    let toml_had_package = metadata.contains_dependency(&dep("click==8.1.3"));

    let outcome = remove_project_dependencies(&metadata, &vec![String::from("click")]).unwrap();

    let toml_contains_package = outcome.metadata.contains_dependency(&dep("click==8.1.3"));
    assert!(toml_had_package);
    assert!(!toml_contains_package);
    assert_eq!(outcome.to_uninstall.len(), 1);
    assert_eq!(outcome.to_uninstall[0].name.as_str(), "click");
    assert!(outcome.write_needed);
}

#[test]
fn test_remove_project_optional_dependencies() {
    let mut metadata = Metadata::template("mock-project");
    metadata.add_optional_dependency(dep("black==22.8.0"), "dev");
    let toml_had_package = metadata.contains_optional_dependency(&dep("black==22.8.0"), "dev");

    let outcome = remove_project_dependencies(&metadata, &vec![String::from("black")]).unwrap();

    let toml_contains_package = outcome.metadata.contains_dependency(&dep("black==22.8.0"));
    assert!(toml_had_package);
    assert!(!toml_contains_package);
    assert!(!outcome
        .metadata
        .contains_optional_dependency(&dep("black==22.8.0"), "dev"));
    assert_eq!(outcome.to_uninstall.len(), 1);
}

#[test]
fn test_update_project_dependencies() {
    let mut metadata = Metadata::template("mock-project");
    metadata.add_dependency(dep("click==8.1.3"));

    let batch = plan_update(&metadata, None).unwrap();
    assert_eq!(batch.len(), 1);

    let installed = vec![pkg("click==8.1.7")];
    let outcome = update_project_dependencies(&metadata, &installed);
    // The pinned constraint was written by the user and stays verbatim.
    assert!(outcome.metadata.contains_dependency(&dep("click==8.1.3")));
    assert!(!outcome.write_needed);
}

#[test]
fn test_update_project_optional_dependencies() {
    let mut metadata = Metadata::template("mock-project");
    metadata.add_optional_dependency(dep("pytest"), "dev");

    let batch = plan_update(&metadata, None).unwrap();
    assert_eq!(batch.len(), 1);

    let installed = vec![pkg("pytest==7.4.0")];
    let outcome = update_project_dependencies(&metadata, &installed);
    // The version-less entry is re-pinned at what the environment reports.
    assert!(outcome
        .metadata
        .contains_optional_dependency(&dep("pytest==7.4.0"), "dev"));
    assert!(outcome.write_needed);
}

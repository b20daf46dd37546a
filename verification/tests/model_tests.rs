use huak::dependency::{names_match, CompareOp, Dependency, Specifier};
use huak::error::Error;
use huak::metadata::Metadata;
use huak::ops::importable_package_name;
use huak::python_environment::{
    find_installed, install_args, uninstall_args, update_args, InstallOptions, Package,
};
use huak::version::{dedup_interpreters, find_interpreter, latest, Interpreter, Version};

fn dep(text: &str) -> Dependency {
    Dependency::parse(text).unwrap()
}

#[test]
fn parse_reads_a_pinned_requirement() {
    let d = dep("click==8.1.3");
    assert_eq!(d.name.as_str(), "click");
    match &d.specifier {
        Specifier::Version { op, version } => {
            assert!(matches!(op, CompareOp::Equal));
            assert_eq!(version.as_str(), "8.1.3");
        }
        _ => panic!("expected a version constraint"),
    }
    assert!(d.extras.is_empty());
}

#[test]
fn parse_reads_extras_and_other_operators() {
    let d = dep("requests[security,socks]>=2.28");
    assert_eq!(d.name.as_str(), "requests");
    assert_eq!(d.extras.len(), 2);
    assert_eq!(d.extras[0].as_str(), "security");
    assert_eq!(d.extras[1].as_str(), "socks");
    match &d.specifier {
        Specifier::Version { op, version } => {
            assert!(matches!(op, CompareOp::GreaterEq));
            assert_eq!(version.as_str(), "2.28");
        }
        _ => panic!("expected a version constraint"),
    }

    let c = dep("flask~=2.0");
    assert!(matches!(
        &c.specifier,
        Specifier::Version { op: CompareOp::Compatible, .. }
    ));
}

#[test]
fn parse_reads_a_source_locator() {
    let d = dep("pip@https://github.com/pypa/pip/archive/22.0.2.zip");
    assert_eq!(d.name.as_str(), "pip");
    match &d.specifier {
        Specifier::Url { url } => {
            assert_eq!(url.as_str(), "https://github.com/pypa/pip/archive/22.0.2.zip");
        }
        _ => panic!("expected a source locator"),
    }
}

#[test]
fn parse_rejects_bad_requirements() {
    assert!(matches!(Dependency::parse(""), Err(Error::EmptyDependencyName)));
    assert!(matches!(Dependency::parse("==1.0"), Err(Error::EmptyDependencyName)));
    assert!(matches!(Dependency::parse("pkg=="), Err(Error::MalformedSpecifier)));
    assert!(matches!(Dependency::parse("pkg=1.0"), Err(Error::MalformedSpecifier)));
    assert!(matches!(Dependency::parse("pkg[]"), Err(Error::MalformedSpecifier)));
    assert!(matches!(Dependency::parse("pkg[a"), Err(Error::MalformedSpecifier)));
    assert!(matches!(Dependency::parse("pkg@"), Err(Error::MalformedSpecifier)));
}

#[test]
fn requirement_text_renders_what_was_parsed() {
    for text in ["click==8.1.3", "requests[security,socks]>=2.28", "pytest", "pkg@file:x"] {
        assert_eq!(dep(text).requirement_text().as_str(), text);
    }
}

#[test]
fn names_match_ignores_case_and_separator_spelling() {
    assert!(names_match("Flask_Login", "flask-login"));
    assert!(names_match("zope.interface", "Zope-Interface"));
    assert!(!names_match("flask", "flask-login"));
    assert!(dep("Flask_Login==1.0").same_dependency(&dep("flask-login")));
}

#[test]
fn package_parse_reads_name_and_exact_version() {
    let p = Package::parse("click==8.1.3").unwrap();
    assert_eq!(p.name.as_str(), "click");
    assert_eq!(p.version.as_str(), "8.1.3");
    assert_eq!(p.to_dependency().requirement_text().as_str(), "click==8.1.3");

    assert!(matches!(Package::parse("click"), Err(Error::MalformedPackage)));
    assert!(matches!(Package::parse("click=="), Err(Error::MalformedPackage)));
    assert!(matches!(Package::parse("==1.0"), Err(Error::MalformedPackage)));
}

#[test]
fn find_installed_matches_by_identity() {
    let installed = vec![
        Package::parse("click==8.1.3").unwrap(),
        Package::parse("Flask_Login==0.6.2").unwrap(),
    ];
    let i = find_installed(&installed, "flask-login").unwrap();
    assert_eq!(i, 1);
    assert!(find_installed(&installed, "ruff").is_none());
}

#[test]
fn installer_arguments_carry_the_whole_batch() {
    let deps = vec![dep("click==8.1.3"), dep("ruff")];
    let options = InstallOptions { values: Some(vec![String::from("--no-cache-dir")]) };

    let args = install_args(&deps, &options);
    let texts: Vec<&str> = args.iter().map(|a| a.as_str()).collect();
    assert_eq!(texts, vec!["install", "click==8.1.3", "ruff", "--no-cache-dir"]);

    let args = uninstall_args(&deps, &InstallOptions { values: None });
    let texts: Vec<&str> = args.iter().map(|a| a.as_str()).collect();
    assert_eq!(texts, vec!["uninstall", "-y", "click", "ruff"]);

    let args = update_args(&deps, &InstallOptions { values: None });
    let texts: Vec<&str> = args.iter().map(|a| a.as_str()).collect();
    assert_eq!(texts, vec!["install", "--upgrade", "click==8.1.3", "ruff"]);
}

#[test]
fn version_parse_reads_two_or_three_components() {
    assert_eq!(
        Version::parse("3.11.4").unwrap(),
        Version { major: 3, minor: 11, patch: 4 }
    );
    assert_eq!(
        Version::parse("3.11").unwrap(),
        Version { major: 3, minor: 11, patch: 0 }
    );
    assert!(matches!(Version::parse("3"), Err(Error::MalformedVersion)));
    assert!(matches!(Version::parse(""), Err(Error::MalformedVersion)));
    assert!(matches!(Version::parse("3.x"), Err(Error::MalformedVersion)));
    assert!(matches!(Version::parse("3.11.4.1"), Err(Error::MalformedVersion)));
    assert!(matches!(Version::parse("3.1234567890"), Err(Error::MalformedVersion)));
}

#[test]
fn latest_picks_the_highest_version_first_found() {
    let list = vec![
        Interpreter { version: Version { major: 3, minor: 10, patch: 2 }, path: String::from("/a") },
        Interpreter { version: Version { major: 3, minor: 11, patch: 0 }, path: String::from("/b") },
        Interpreter { version: Version { major: 3, minor: 11, patch: 0 }, path: String::from("/c") },
        Interpreter { version: Version { major: 3, minor: 9, patch: 18 }, path: String::from("/d") },
    ];
    let i = latest(&list).unwrap();
    assert_eq!(i, 1);
    assert_eq!(list[i].path.as_str(), "/b");

    let empty: Vec<Interpreter> = Vec::new();
    assert!(latest(&empty).is_none());
}

#[test]
fn find_interpreter_matches_the_requested_version() {
    let list = vec![
        Interpreter { version: Version { major: 3, minor: 10, patch: 2 }, path: String::from("/a") },
        Interpreter { version: Version { major: 3, minor: 11, patch: 0 }, path: String::from("/b") },
    ];
    assert_eq!(find_interpreter(&list, "3.11.0").unwrap(), 1);
    assert_eq!(find_interpreter(&list, "3.11").unwrap(), 1);
    assert!(find_interpreter(&list, "3.12.0").is_none());
    assert!(find_interpreter(&list, "not-a-version").is_none());
}

#[test]
fn discovery_keeps_the_first_listing_of_each_path() {
    let list = vec![
        Interpreter { version: Version { major: 3, minor: 11, patch: 0 }, path: String::from("/usr/bin/python3") },
        Interpreter { version: Version { major: 3, minor: 10, patch: 2 }, path: String::from("/usr/local/bin/python3") },
        Interpreter { version: Version { major: 3, minor: 11, patch: 0 }, path: String::from("/usr/bin/python3") },
    ];
    let unique = dedup_interpreters(&list);
    assert_eq!(unique.len(), 2);
    assert_eq!(unique[0].path.as_str(), "/usr/bin/python3");
    assert_eq!(unique[1].path.as_str(), "/usr/local/bin/python3");
}

#[test]
fn importable_name_rewrites_separators() {
    assert_eq!(importable_package_name("mock-project").as_str(), "mock_project");
    assert_eq!(importable_package_name("Zope.Interface").as_str(), "zope_interface");
}

#[test]
fn documents_compare_field_for_field() {
    let mut a = Metadata::template("mock-project");
    let b = Metadata::template("mock-project");
    assert!(a.same_document(&b));
    a.add_dependency(dep("click==8.1.3"));
    assert!(!a.same_document(&b));
    assert!(a.same_document(&a.duplicate()));

    let c = Metadata::template("other-project");
    assert!(!b.same_document(&c));
}

use xi_modal_input::playground::{dep_for_comment_line, list_toolchains, Error, TaskType, ToolchainInfo};

#[test]
fn hacky_dependencies() {
    assert_eq!(dep_for_comment_line("//~ use serde = 1.0").unwrap(), ("serde = \"1.0\""));
    assert_eq!(dep_for_comment_line("  //~ use ast").unwrap(), ("ast = \"*\""));
    // allow missing first space
    assert_eq!(dep_for_comment_line("//~use ast").unwrap(), ("ast = \"*\""));
    // ignore quotes
    assert_eq!(dep_for_comment_line("//~ use ast = \"5\"").unwrap(), ("ast = \"5\""));

    assert_eq!(dep_for_comment_line("//~ use ast = \"5.0.1\"").unwrap(), ("ast = \"5.0.1\""));

    // versions are numeric values
    assert!(dep_for_comment_line("//~ use ast = \"5a\"").is_err());

    // identifiers are alphanums
    assert!(dep_for_comment_line("//~ use jso√± = \"5\"").is_err());
    assert!(dep_for_comment_line("//~ use jso.n = \"5\"").is_err());
}

#[test]
fn malformed_dependency_carries_its_text() {
    match dep_for_comment_line("  //~ use a b c  ") {
        Err(Error::MalformedDependency(s)) => assert_eq!(s, "use a b c"),
        _ => panic!("expected a malformed dependency"),
    }
    assert_eq!(dep_for_comment_line("//~ use").unwrap_err().error_code(), 30);
}

#[test]
fn error_codes() {
    assert_eq!(Error::BadExit("x".to_string()).error_code(), 1);
    assert_eq!(Error::MissingRustup.error_code(), 10);
    assert_eq!(Error::MalformedDependency("x".to_string()).error_code(), 30);
    assert_eq!(Error::ReadingToolchainsDir.error_code(), 2);
}

#[test]
fn toolchain_names() {
    let info = ToolchainInfo::from_name("nightly-2019-01-26-x86_64-apple-darwin".to_string()).unwrap();
    assert_eq!(info.name, "nightly-2019-01-26-x86_64-apple-darwin");
    assert_eq!(info.channel, "nightly");
    assert_eq!(info.date.as_deref(), Some("2019-01-26-x86_64"));
    let info = ToolchainInfo::from_name("stable-apple-darwin".to_string()).unwrap();
    assert_eq!(info.channel, "stable");
    assert_eq!(info.date, None);
}

#[test]
fn only_native_toolchains_are_listed() {
    let names = vec![
        "stable-x86_64-apple-darwin".to_string(),
        "stable-x86_64-unknown-linux-gnu".to_string(),
        "beta-apple-darwin".to_string(),
    ];
    let list = list_toolchains(&names).unwrap();
    assert_eq!(list.len(), 2);
    assert_eq!(list[0].channel, "stable");
    assert_eq!(list[1].channel, "beta");
}

#[test]
fn task_commands() {
    assert_eq!(TaskType::Run.as_str(), "build");
    assert_eq!(TaskType::Check.as_str(), "build");
    assert_eq!(TaskType::Test.as_str(), "test");
    assert_eq!(TaskType::Clean.as_str(), "clean");
}

#[test]
fn dependency_comments_in_code() {
    let code = "//~ use serde = \"1.0\"\r\nfn main() {}\n  //~ use ast\n";
    let deps = xi_modal_input::playground::parse_dep_comments(code).unwrap();
    assert_eq!(deps, vec!["serde = \"1.0\"".to_string(), "ast = \"*\"".to_string()]);
    assert!(xi_modal_input::playground::parse_dep_comments("//~ use a.b\nfn main() {}").is_err());
    assert!(xi_modal_input::playground::parse_dep_comments("").unwrap().is_empty());
}

#[test]
fn sort_toolchains() {
    let mut toolchains: Vec<String> = vec![
        "nightly-2019-01-26-x86_64-apple-darwin",
        "stable-x86_64-apple-darwin",
        "nightly-x86_64-apple-darwin",
        "1.31.0-x86_64-apple-darwin",
    ]
    .into_iter()
    .map(String::from)
    .collect();

    xi_modal_input::playground::toolchain_sort(&mut toolchains);

    assert_eq!(
        toolchains,
        vec![
            "stable-x86_64-apple-darwin",
            "nightly-x86_64-apple-darwin",
            "nightly-2019-01-26-x86_64-apple-darwin",
            "1.31.0-x86_64-apple-darwin",
        ]
    );
}

#[test]
fn underscored_versions_sort_as_versions() {
    let mut names: Vec<String> = vec!["1.2.0_beta-apple-darwin".to_string(), "1.1.0-apple-darwin".to_string()];
    xi_modal_input::playground::toolchain_sort(&mut names);
    assert_eq!(names, vec!["1.1.0-apple-darwin".to_string(), "1.2.0_beta-apple-darwin".to_string()]);
}

#[test]
fn empty_version_is_malformed() {
    assert!(dep_for_comment_line("//~ use ast = \"\"").is_err());
}

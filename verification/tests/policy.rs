use iznik_kit::policy::attributes::{self as attributes, Attribute, AttributeFile, Token};
use iznik_kit::policy::blocking::{self as blocking, Event, MacroToken, UseTree, WalkedFile};
use iznik_kit::policy::dependencies::{self as dependencies, MemberManifest};
use iznik_kit::policy::documentation::{self as documentation, CrateDocuments};
use iznik_kit::policy::length;
use iznik_kit::policy::lexicon::{self as lexicon, Declaration, DeclaredFile};
use iznik_kit::policy::links::{self as links, CheckedDocument};
use iznik_kit::policy::literals::{self as literals, Literal, LiteralFile, LiteralKind};
use iznik_kit::policy::unsafe_boundary;
use iznik_kit::policy::{
    fence_lines, fixture_root, is_fixture, numbered_lines, package_name, parse_rust, relative, rust_files,
    skipped, workspace_members, FenceLine, PolicyError, SourceText, Violation,
};

const ROOT: &str = "/work/tree";

fn source(path: &str, text: &str) -> SourceText {
    SourceText { path: path.to_owned(), text: text.to_owned() }
}

fn words(identifier: &str) -> Vec<String> {
    lexicon::words(identifier)
}

#[test]
fn policy_words_split_on_separators_and_case() {
    assert_eq!(words("HTTPServer"), vec!["http", "server"]);
    assert_eq!(words("parseHTTPResponse"), vec!["parse", "http", "response"]);
    assert_eq!(words("kebab-case.name"), vec!["kebab", "case", "name"]);
    assert_eq!(words("snake_case_name"), vec!["snake", "case", "name"]);
}

#[test]
fn policy_words_keep_digits_with_the_word_before_them() {
    assert_eq!(words("utf8"), vec!["utf8"]);
    assert_eq!(words("sha256"), vec!["sha256"]);
    assert_eq!(words("x86_64"), vec!["x86"]);
    assert_eq!(words("Sha256Digest"), vec!["sha256", "digest"]);
}

#[test]
fn policy_words_ignore_underscores_at_the_ends_and_raw_markers() {
    assert_eq!(words("_"), Vec::<String>::new());
    assert_eq!(words("__private__"), vec!["private"]);
    assert_eq!(words("r#type"), vec!["type"]);
}

#[test]
fn policy_a_vocabulary_line_is_one_lowercase_word() {
    assert!(lexicon::is_well_formed_word("alpha"));
    assert!(lexicon::is_well_formed_word("utf8"));
    assert!(!lexicon::is_well_formed_word("Alpha"));
    assert!(!lexicon::is_well_formed_word("8bit"));
    assert!(!lexicon::is_well_formed_word(""));
    assert!(!lexicon::is_well_formed_word("two words"));
}

#[test]
fn policy_the_lexicon_check_reports_files_identifiers_and_names() {
    let plans = vec![format!("{ROOT}/docs/plans/tasks/0001-alpha.md")];
    let lexicon_files = vec![
        source(&format!("{ROOT}/policy/lexicon/alpha.txt"), "alpha\ncrates\nrs\nsrc\n"),
        source(&format!("{ROOT}/policy/lexicon/stray.txt"), "zeta\nbeta\nbeta\nBad\n"),
    ];
    let sources = vec![DeclaredFile {
        path: format!("{ROOT}/crates/src/alpha.rs"),
        declarations: vec![
            Declaration { identifier: "alpha_beta".to_owned(), line: 3, plain_pattern: false },
            Declaration { identifier: "Gamma".to_owned(), line: 4, plain_pattern: true },
            Declaration { identifier: "Gamma".to_owned(), line: 5, plain_pattern: false },
        ],
    }];
    let named = vec![format!("{ROOT}/crates/src/alpha.rs")];
    let found = lexicon::check(ROOT, &plans, &lexicon_files, &sources, &named);
    let said: Vec<String> = found.iter().map(Violation::message).collect();
    assert_eq!(
        said,
        vec![
            "policy/lexicon/stray.txt: lexicon-file: `stray` is not the id of a task under docs/plans",
            "policy/lexicon/stray.txt:2: lexicon-file: `beta` is out of order after `zeta`",
            "policy/lexicon/stray.txt:3: lexicon-file: `beta` is listed twice",
            "policy/lexicon/stray.txt:4: lexicon-file: `Bad` is not a lowercase word of letters and digits",
            "policy/lexicon/stray.txt:4: lexicon-file: `Bad` is out of order after `beta`",
            "crates/src/alpha.rs:5: lexicon: `Gamma`: `gamma` is not in the vocabulary",
        ]
    );
}

#[test]
fn policy_names_are_checked_once_each_in_path_order() {
    let lexicon_files = vec![source(&format!("{ROOT}/policy/lexicon/alpha.txt"), "alpha\ncrates\nrs\n")];
    let named = vec![
        format!("{ROOT}/crates/odd-name/alpha.rs"),
        format!("{ROOT}/crates/odd-name/beta.rs"),
    ];
    let found = lexicon::check(ROOT, &[], &lexicon_files, &[], &named);
    let said: Vec<String> = found.iter().map(Violation::message).collect();
    assert_eq!(
        said,
        vec![
            "policy/lexicon/alpha.txt: lexicon-file: `alpha` is not the id of a task under docs/plans",
            "crates/odd-name: lexicon-name: `odd-name`: `odd` is not in the vocabulary",
            "crates/odd-name: lexicon-name: `odd-name`: `name` is not in the vocabulary",
            "crates/odd-name/beta.rs: lexicon-name: `beta.rs`: `beta` is not in the vocabulary",
        ]
    );
}

#[test]
fn policy_fences_are_told_from_prose() {
    let lines = numbered_lines("prose\n```text\ninside\n```\nmore");
    let fences = fence_lines(&lines);
    assert_eq!(
        fences,
        vec![
            FenceLine::Outside { line: 1, text: "prose".to_owned() },
            FenceLine::Opening { line: 2, tag: "text".to_owned() },
            FenceLine::Inside { line: 3 },
            FenceLine::Closing { line: 4 },
            FenceLine::Outside { line: 5, text: "more".to_owned() },
        ]
    );
}

#[test]
fn policy_a_doctest_fence_is_named_for_what_makes_it_one() {
    assert_eq!(
        documentation::doctest_reason(""),
        Some("an untagged fence is a doctest that never runs; tag it".to_owned())
    );
    assert_eq!(
        documentation::doctest_reason("rust"),
        Some("a fence tagged `rust` is a doctest that never runs; tag it `text`".to_owned())
    );
    assert_eq!(
        documentation::doctest_reason("no_run, edition2021"),
        Some("a fence tagged `no_run, edition2021` is a doctest that never runs; tag it `text`".to_owned())
    );
    assert_eq!(
        documentation::doctest_reason("edition2021"),
        Some("a fence tagged `edition2021` is a doctest that never runs; tag it `text`".to_owned())
    );
    assert_eq!(documentation::doctest_reason("text"), None);
    assert_eq!(documentation::doctest_reason("toml"), None);
}

#[test]
fn policy_a_module_path_is_its_file_below_the_sources() {
    let sources = "/c/src";
    assert_eq!(documentation::module_of(sources, "/c/src/lib.rs"), None);
    assert_eq!(documentation::module_of(sources, "/c/src/main.rs"), None);
    assert_eq!(documentation::module_of(sources, "/c/src/pty.rs"), Some("pty".to_owned()));
    assert_eq!(documentation::module_of(sources, "/c/src/pty/mod.rs"), Some("pty".to_owned()));
    assert_eq!(documentation::module_of(sources, "/c/src/pty/spawn.rs"), Some("pty::spawn".to_owned()));
    assert_eq!(documentation::module_of(sources, "/elsewhere/pty.rs"), None);
}

#[test]
fn policy_the_documentation_check_reads_crates_and_sources() {
    let crates = vec![CrateDocuments {
        directory: format!("{ROOT}/crates/alpha"),
        manifest: "[package]\nname = \"alpha\"\n".to_owned(),
        roots: vec![source(&format!("{ROOT}/crates/alpha/src/lib.rs"), "//! Alpha.\n")],
        readme: Some("# beta\n\n```\nlet x = 1;\n```\n\n`known`\n".to_owned()),
        sources: vec![
            format!("{ROOT}/crates/alpha/src/lib.rs"),
            format!("{ROOT}/crates/alpha/src/known.rs"),
            format!("{ROOT}/crates/alpha/src/missing.rs"),
        ],
    }];
    let sources = vec![
        source(&format!("{ROOT}/crates/alpha/src/known.rs"), "// Not documentation.\n/// ```rust\n/// x\n/// ```\n"),
    ];
    let found = documentation::check(ROOT, &crates, &sources).expect("the manifest names its package");
    let said: Vec<String> = found.iter().map(Violation::message).collect();
    assert_eq!(
        said,
        vec![
            "crates/alpha/src/lib.rs: documentation-include: the crate root does not carry `#![doc = include_str!(\"../README.md\")]`",
            "crates/alpha/README.md:1: documentation-heading: the README does not begin with `# alpha`",
            "crates/alpha/README.md:3: documentation-fence: an untagged fence is a doctest that never runs; tag it",
            "crates/alpha/src/missing.rs: documentation-module: module `missing` does not appear in crates/alpha/README.md",
            "crates/alpha/src/known.rs:1: documentation-header: the file does not begin with a `//!` documentation line",
            "crates/alpha/src/known.rs:2: documentation-fence: a fence tagged `rust` is a doctest that never runs; tag it `text`",
        ]
    );
}

#[test]
fn policy_a_crate_without_a_readme_is_told_so() {
    let crates = vec![CrateDocuments {
        directory: format!("{ROOT}/crates/alpha"),
        manifest: "[package]\nname = \"alpha\"\n".to_owned(),
        roots: Vec::new(),
        readme: None,
        sources: Vec::new(),
    }];
    let found = documentation::check(ROOT, &crates, &[]).expect("the manifest names its package");
    let said: Vec<String> = found.iter().map(Violation::message).collect();
    assert_eq!(said, vec!["crates/alpha/README.md: documentation-readme: the crate has no README, which is its documentation"]);
}

#[test]
fn policy_a_manifest_without_a_package_is_a_parse_error() {
    let crates = vec![CrateDocuments {
        directory: format!("{ROOT}/crates/alpha"),
        manifest: "[workspace]\n".to_owned(),
        roots: Vec::new(),
        readme: None,
        sources: Vec::new(),
    }];
    match documentation::check(ROOT, &crates, &[]) {
        Err(PolicyError::Parse { path, detail }) => {
            assert_eq!(path, format!("{ROOT}/crates/alpha/Cargo.toml"));
            assert_eq!(detail, "no package.name");
        }
        other => panic!("expected a parse error, got {other:?}"),
    }
}

#[test]
fn policy_package_name_reads_the_manifest_through_toml() {
    assert_eq!(package_name("Cargo.toml", "[package]\nname = \"iznik-kit\"\n").expect("a name"), "iznik-kit");
    match package_name("Cargo.toml", "[package\n") {
        Err(PolicyError::Parse { path, detail }) => {
            assert_eq!(path, "Cargo.toml");
            assert!(!detail.is_empty());
        }
        other => panic!("expected a parse error, got {other:?}"),
    }
}

#[test]
fn policy_workspace_members_are_joined_onto_the_root() {
    let members = workspace_members(ROOT, "[workspace]\nmembers = [\"crates/alpha\", 7, \"xtask\"]\n").expect("TOML");
    assert_eq!(members, vec![format!("{ROOT}/crates/alpha"), format!("{ROOT}/xtask")]);
    assert!(matches!(workspace_members(ROOT, "not = = toml"), Err(PolicyError::Parse { .. })));
}

#[test]
fn policy_link_targets_leave_inline_code_out() {
    assert_eq!(links::targets_on("see [a](a.md) and [b](b.md#part \"title\")"), vec!["a.md", "b.md#part"]);
    assert_eq!(links::targets_on("shown `[a](a.md)` not made"), Vec::<String>::new());
    assert_eq!(links::targets_on("[label]: reference.md"), vec!["reference.md"]);
    assert_eq!(links::targets_on("[^note]: a footnote"), Vec::<String>::new());
}

#[test]
fn policy_a_url_or_a_fragment_is_not_resolved() {
    assert!(links::has_scheme("https://example.com"));
    assert!(links::has_scheme("mailto:someone"));
    assert!(!links::has_scheme("docs/file.md"));
    assert!(!links::has_scheme("1http:x"));
    assert_eq!(links::path_of("#section"), None);
    assert_eq!(links::path_of("https://example.com"), None);
    assert_eq!(links::path_of("file.md#part"), Some("file.md".to_owned()));
    assert_eq!(links::path_of("<spaced.md>"), Some("spaced.md".to_owned()));
}

#[test]
fn policy_links_resolve_against_the_document_or_the_root() {
    let document = "[a](a.md)\n```text\n[b](b.md)\n```\n[c](/top/c.md)\n[d](https://example.com)";
    let found = links::links(ROOT, &format!("{ROOT}/docs/readme.md"), document);
    let resolved: Vec<(usize, String, String)> =
        found.iter().map(|link| (link.line, link.target.clone(), link.resolved.clone())).collect();
    assert_eq!(
        resolved,
        vec![
            (1, "a.md".to_owned(), format!("{ROOT}/docs/a.md")),
            (5, "/top/c.md".to_owned(), format!("{ROOT}/top/c.md")),
        ]
    );
    let checked = vec![CheckedDocument { path: format!("{ROOT}/docs/readme.md"), links: found, exists: vec![true, false] }];
    let said: Vec<String> = links::check(ROOT, &checked).iter().map(Violation::message).collect();
    assert_eq!(said, vec!["docs/readme.md:5: link: `/top/c.md` does not resolve"]);
}

#[test]
fn policy_only_zero_and_one_are_plain_literals() {
    let literal = |kind, digits: &str| Literal { kind, digits: digits.to_owned(), text: digits.to_owned(), line: 1 };
    assert!(literals::is_zero_or_one(&literal(LiteralKind::Integer, "0")));
    assert!(literals::is_zero_or_one(&literal(LiteralKind::Integer, "1")));
    assert!(!literals::is_zero_or_one(&literal(LiteralKind::Integer, "2")));
    assert!(literals::is_zero_or_one(&literal(LiteralKind::Float, "1.0")));
    assert!(literals::is_zero_or_one(&literal(LiteralKind::Float, "0.000")));
    assert!(!literals::is_zero_or_one(&literal(LiteralKind::Float, "0.5")));
    assert!(literals::is_zero_or_one(&literal(LiteralKind::Other, "42")));
}

#[test]
fn policy_magic_numbers_are_reported_outside_tests() {
    let magic = Literal { kind: LiteralKind::Integer, digits: "42".to_owned(), text: "42u8".to_owned(), line: 7 };
    let files = vec![
        LiteralFile { path: format!("{ROOT}/crates/alpha/src/lib.rs"), literals: vec![magic.clone()] },
        LiteralFile { path: format!("{ROOT}/crates/alpha/tests/case.rs"), literals: vec![magic.clone()] },
        LiteralFile { path: format!("{ROOT}/xtask/tests/fixtures/policy/literals/bad/lib.rs"), literals: vec![magic] },
    ];
    let said: Vec<String> = literals::check(ROOT, &files).iter().map(Violation::message).collect();
    assert_eq!(said, vec!["crates/alpha/src/lib.rs:7: literal: `42u8` is a magic number; name it in a documented constant"]);
    assert!(literals::is_exempt(ROOT, &format!("{ROOT}/crates/alpha/benches/speed.rs")));
    assert!(!literals::is_exempt(&format!("{ROOT}/tests"), &format!("{ROOT}/tests/src/lib.rs")));
}

#[test]
fn policy_waivers_and_test_configurations_are_refused() {
    let identifier = |name: &str| Token::Ident(name.to_owned());
    let files = vec![AttributeFile {
        path: format!("{ROOT}/crates/alpha/src/lib.rs"),
        attributes: vec![
            Attribute { name: Some("allow".to_owned()), list: Some(vec![identifier("dead_code")]), line: 2 },
            Attribute { name: Some("cfg".to_owned()), list: Some(vec![identifier("test")]), line: 3 },
            Attribute {
                name: Some("cfg_attr".to_owned()),
                list: Some(vec![identifier("unix"), Token::Other, identifier("expect"), Token::Group(vec![identifier("unused")])]),
                line: 4,
            },
            Attribute {
                name: Some("cfg".to_owned()),
                list: Some(vec![identifier("all"), Token::Group(vec![identifier("unix"), Token::Other, identifier("test")])]),
                line: 5,
            },
            Attribute { name: Some("derive".to_owned()), list: Some(vec![identifier("Debug")]), line: 6 },
        ],
    }];
    let said: Vec<String> = attributes::check(ROOT, &files).iter().map(Violation::message).collect();
    assert_eq!(
        said,
        vec![
            "crates/alpha/src/lib.rs:2: attribute-waiver: `#[allow]` waives a lint at one site; restructure the code or change the rule for everyone",
            "crates/alpha/src/lib.rs:3: attribute-cfg-test: `#[cfg(test)]` makes a test module; every test is a file under `tests/`",
            "crates/alpha/src/lib.rs:4: attribute-waiver: `#[cfg_attr(..., expect)]` waives a lint at one site; restructure the code or change the rule for everyone",
            "crates/alpha/src/lib.rs:5: attribute-cfg-test: `#[cfg(test)]` makes a test module; every test is a file under `tests/`",
        ]
    );
}

#[test]
fn policy_a_forbidden_facility_is_named_by_what_it_lies_inside() {
    assert_eq!(blocking::forbidden_facility("std::thread::sleep"), Some("std::thread::sleep".to_owned()));
    assert_eq!(blocking::forbidden_facility("std::io::Write::flush"), Some("std::io::Write".to_owned()));
    assert_eq!(blocking::forbidden_facility("std::io::Error"), None);
    assert_eq!(blocking::forbidden_facility("std::io::Writer"), None);
    assert_eq!(blocking::forbidden_facility("std::process::Command::new"), Some("std::process::Command".to_owned()));
    assert_eq!(blocking::forbidden_facility("std::process::ExitCode"), None);
    assert_eq!(blocking::forbidden_facility("std::processes"), None);
}

#[test]
fn policy_paths_resolve_through_the_imports_of_a_file() {
    let ident = |name: &str, line: usize| MacroToken::Ident { name: name.to_owned(), line };
    let events = vec![
        Event::Use {
            tree: UseTree::Path {
                ident: "std".to_owned(),
                tree: Box::new(UseTree::Group {
                    items: vec![
                        UseTree::Name { ident: "io".to_owned(), line: 1 },
                        UseTree::Path {
                            ident: "thread".to_owned(),
                            tree: Box::new(UseTree::Rename { ident: "sleep".to_owned(), rename: "nap".to_owned(), line: 1 }),
                        },
                        UseTree::Path { ident: "process".to_owned(), tree: Box::new(UseTree::Glob { line: 1 }) },
                    ],
                }),
            },
        },
        Event::Path { segments: vec!["nap".to_owned()], line: 3 },
        Event::Macro {
            tokens: vec![ident("io", 4), MacroToken::Colon, MacroToken::Colon, ident("stderr", 4), MacroToken::Group { tokens: vec![] }, MacroToken::Other],
        },
        Event::Path { segments: vec!["io".to_owned(), "Error".to_owned()], line: 5 },
    ];
    let files = vec![WalkedFile { path: format!("{ROOT}/crates/iznik-client/src/lib.rs"), events }];
    let said: Vec<String> = blocking::check(ROOT, &files).iter().map(Violation::message).collect();
    assert_eq!(
        said,
        vec![
            "crates/iznik-client/src/lib.rs:1: blocking: `std::thread::sleep` blocks; use the async runtime's equivalent",
            "crates/iznik-client/src/lib.rs:3: blocking: `std::thread::sleep` blocks; use the async runtime's equivalent",
            "crates/iznik-client/src/lib.rs:4: blocking: `std::io::stderr` blocks; use the async runtime's equivalent",
            "crates/iznik-client/src/lib.rs:1: blocking: a glob import of `std::process` hides which of its facilities are used; name them",
        ]
    );
}

#[test]
fn policy_the_exception_file_is_not_held_to_the_blocking_rule() {
    let events = vec![Event::Path { segments: vec!["std".to_owned(), "thread".to_owned(), "sleep".to_owned()], line: 9 }];
    let files = vec![
        WalkedFile { path: format!("{ROOT}/crates/iznik-server/src/pty/streams.rs"), events },
        WalkedFile { path: format!("{ROOT}/crates/iznik-server/src/notes.md"), events: Vec::new() },
    ];
    assert!(blocking::check(ROOT, &files).is_empty());
}

#[test]
fn policy_the_allowlist_is_read_under_its_heading() {
    let text = "# Dependencies\n\n## Tools\n- `ignored` because\n\n## Workspace\n- `serde` for data\n- `anyhow` errors\n  - `toml` nested\n\n## Other\n- `later` no\n";
    assert_eq!(dependencies::allowlisted_packages(text), vec!["anyhow", "serde", "toml"]);
}

#[test]
fn policy_resolved_packages_leave_the_workspace_members_out() {
    let metadata = br#"{"workspace_members":["path+file:///w#alpha@0.1.0"],"packages":[{"id":"path+file:///w#alpha@0.1.0","name":"alpha"},{"id":"registry#serde@1.0.0","name":"serde"},{"id":"registry#anyhow@1.0.0","name":"anyhow"}]}"#;
    assert_eq!(dependencies::resolved_packages(metadata).expect("JSON"), vec!["anyhow", "serde"]);
    assert!(dependencies::resolved_packages(b"not json").is_err());
}

#[test]
fn policy_the_dependencies_check_compares_both_ways_and_reads_manifests() {
    let metadata = br#"{"workspace_members":["m"],"packages":[{"id":"m","name":"iznik-protocol"},{"id":"s","name":"serde"},{"id":"r","name":"rand"}]}"#;
    let allowlist = "## Workspace\n- `serde` data\n- `unused` nothing\n";
    let members = vec![MemberManifest {
        directory: format!("{ROOT}/crates/iznik-protocol"),
        manifest: "[package]\nname = \"iznik-protocol\"\n[dependencies]\nserde = \"1\"\npinned = \"=2.0.1\"\n[dev-dependencies]\nrand = { version = \"0.8\" }\n".to_owned(),
        build_script: true,
    }];
    let found = dependencies::check(ROOT, metadata, allowlist, &members).expect("readable");
    let said: Vec<String> = found.iter().map(Violation::message).collect();
    assert_eq!(
        said,
        vec![
            "policy/dependencies.md: dependency-undeclared: `rand` is resolved but not listed under `## Workspace`",
            "policy/dependencies.md: dependency-unused: `unused` is listed but nothing resolves it",
            "crates/iznik-protocol/Cargo.toml: dependency-free-crate: `iznik-protocol` declares `[dependencies]`; by rule it has none",
            "crates/iznik-protocol/Cargo.toml: dependency-pin: `dependencies.serde = \"1\"` is not an exact `=` pin",
            "crates/iznik-protocol/Cargo.toml: dependency-pin: `dev-dependencies.rand = \"0.8\"` is not an exact `=` pin",
            "crates/iznik-protocol/build.rs: build-script: no workspace crate has a build script",
        ]
    );
}

#[test]
fn policy_unreadable_metadata_is_a_parse_error_naming_cargo() {
    match dependencies::check(ROOT, b"{", "", &[]) {
        Err(PolicyError::Parse { path, detail }) => {
            assert_eq!(path, format!("{ROOT}/Cargo.toml"));
            assert!(detail.starts_with("cargo metadata: "));
        }
        other => panic!("expected a parse error, got {other:?}"),
    }
}

#[test]
fn policy_every_crate_root_but_the_boundary_forbids_unsafe() {
    let roots = vec![
        source(&format!("{ROOT}/crates/alpha/src/lib.rs"), "//! Alpha.\n#![forbid(unsafe_code)]\n"),
        source(&format!("{ROOT}/crates/alpha/src/main.rs"), "fn main() {}\n"),
        source(&format!("{ROOT}/crates/iznik-ffi/src/lib.rs"), "//! The boundary.\n"),
    ];
    let said: Vec<String> = unsafe_boundary::check(ROOT, &roots).iter().map(Violation::message).collect();
    assert_eq!(said, vec!["crates/alpha/src/main.rs: unsafe-boundary: the crate root does not carry `#![forbid(unsafe_code)]`"]);
}

#[test]
fn policy_no_file_may_run_past_a_thousand_lines() {
    let long = "line\n".repeat(1001);
    let files = vec![
        source(&format!("{ROOT}/crates/long.rs"), &long),
        source(&format!("{ROOT}/Cargo.lock"), &long),
        source(&format!("{ROOT}/crates/short.rs"), &"line\n".repeat(1000)),
    ];
    let said: Vec<String> = length::check(ROOT, &files).iter().map(Violation::message).collect();
    assert_eq!(said, vec!["crates/long.rs: length: 1001 lines; the most a file may have is 1000"]);
}

#[test]
fn policy_paths_are_reported_relative_to_the_root() {
    assert_eq!(relative(ROOT, &format!("{ROOT}/crates/alpha/src/lib.rs")), "crates/alpha/src/lib.rs");
    assert_eq!(relative(ROOT, "/elsewhere/file.rs"), "/elsewhere/file.rs");
    assert_eq!(fixture_root(ROOT, "literals", "bad"), format!("{ROOT}/xtask/tests/fixtures/policy/literals/bad"));
    assert!(is_fixture(ROOT, &format!("{ROOT}/xtask/tests/fixtures/policy/x.rs")));
    assert!(!is_fixture(ROOT, &format!("{ROOT}/xtask/tests/other.rs")));
    assert!(skipped(ROOT, &format!("{ROOT}/target")));
    assert!(skipped(ROOT, &format!("{ROOT}/.git")));
    assert!(!skipped(ROOT, &format!("{ROOT}/crates/target")));
    assert_eq!(
        rust_files(&[format!("{ROOT}/a.rs"), format!("{ROOT}/b.md"), format!("{ROOT}/c.rs")]),
        vec![format!("{ROOT}/a.rs"), format!("{ROOT}/c.rs")]
    );
}

#[test]
fn policy_every_fixture_tree_is_left_out_of_its_walk() {
    for (check, tree) in [("lexicon", "clean"), ("links", "broken/deep"), ("attributes", "")] {
        let planted = fixture_root(ROOT, check, tree);
        assert!(is_fixture(ROOT, &planted), "{planted}");
        assert!(skipped(ROOT, &planted), "{planted}");
        assert!(skipped(ROOT, &format!("{planted}/src/lib.rs")), "{planted}");
    }
}

#[test]
fn policy_an_allowlist_equal_to_what_resolves_is_clean() {
    let metadata = br#"{"workspace_members":["m"],"packages":[{"id":"m","name":"alpha"},{"id":"s","name":"serde"},{"id":"t","name":"toml"}]}"#;
    let allowlist = "## Workspace\n- `toml` config\n- `serde` data\n";
    assert!(dependencies::check(ROOT, metadata, allowlist, &[]).expect("readable").is_empty());
    let short = "## Workspace\n- `toml` config\n";
    assert_eq!(dependencies::check(ROOT, metadata, short, &[]).expect("readable").len(), 1);
}

#[test]
fn policy_a_walk_is_put_in_the_order_paths_sort_in() {
    let found: Vec<String> = ["/t/a/x.rs", "/t/a-b/y.rs", "/t/a/b.rs", "/t/a.rs", "/t/a/x.rs"].iter().map(|path| path.to_string()).collect();
    let ordered = iznik_kit::policy::in_path_order(&found);
    assert_eq!(ordered, vec!["/t/a/b.rs", "/t/a/x.rs", "/t/a/x.rs", "/t/a-b/y.rs", "/t/a.rs"]);
}

#[test]
fn policy_rust_is_parsed_or_refused_naming_its_file() {
    let parsed = parse_rust("/work/tree/src/lib.rs", "//! A crate.\npub fn one() -> u8 {\n    1\n}\n").expect("Rust");
    assert_eq!(parsed.items.len(), 1);
    match parse_rust("/work/tree/src/bad.rs", "pub fn (") {
        Err(PolicyError::Parse { path, detail }) => {
            assert_eq!(path, "/work/tree/src/bad.rs");
            assert!(!detail.is_empty());
        }
        other => panic!("expected a parse error, got {other:?}"),
    }
}

#[test]
fn policy_lines_keep_a_carriage_return_with_no_newline_after_it() {
    let shown = |text: &str| -> Vec<String> {
        let characters: Vec<char> = text.chars().collect();
        iznik_kit::text::lines_of(&characters).iter().map(|line| line.iter().collect()).collect()
    };
    assert_eq!(shown("a\r"), vec!["a\r".to_owned()]);
    assert_eq!(shown("a\r\nb\n"), vec!["a".to_owned(), "b".to_owned()]);
    assert_eq!(shown("a\r\nb\r"), vec!["a".to_owned(), "b\r".to_owned()]);
    assert_eq!(shown("a\n\nb"), vec!["a".to_owned(), String::new(), "b".to_owned()]);
    assert!(!lexicon::is_well_formed_word("word\r"));
}

#[test]
fn policy_only_exact_pins_pass_among_a_table_s_entries() {
    let entries = vec![
        ("serde".to_owned(), Some("=1.0.200".to_owned())),
        ("toml".to_owned(), Some("0.8".to_owned())),
        ("local".to_owned(), None),
        ("anyhow".to_owned(), Some("^1".to_owned())),
    ];
    let mut violations = Vec::new();
    dependencies::check_pins("crates/a/Cargo.toml", "dev-dependencies", &entries, &mut violations);
    assert_eq!(violations.len(), 2);
    assert_eq!(violations[0].path, "crates/a/Cargo.toml");
    assert_eq!(violations[0].line, None);
    assert_eq!(violations[0].rule, "dependency-pin");
    assert_eq!(violations[0].detail, "`dev-dependencies.toml = \"0.8\"` is not an exact `=` pin");
    assert_eq!(violations[1].detail, "`dev-dependencies.anyhow = \"^1\"` is not an exact `=` pin");
}

use iznik_kit::distribution::launch::{default_servers, servers};
use iznik_kit::distribution::linux::{built_at, configured, rustflags, targets};
use iznik_kit::distribution::shape::{elf_shape, mach_shape, ShapeError};
use iznik_kit::distribution::{
    asked_target, checksum_line, digest_of, manifest, platform, protocol_version, usage_line as distribution_usage, within_ceiling,
    Artifact, DistributionError, Platform,
};
use iznik_kit::doctor::{examine, judge_output, missing, pinned_channel, prerequisites, said, DoctorError};
use iznik_kit::gate::{asked, gates, usage_line as gate_usage, Asked, Gate};
use iznik_kit::golden::{bytes, hex, GoldenError};
use iznik_kit::header::{readable, renames};
use iznik_kit::{asked_for_help, route, usage_line, Route};

fn words(held: &[&str]) -> Vec<String> {
    held.iter().map(|word| word.to_string()).collect()
}

#[test]
fn tasks_the_dispatcher_routes_by_the_first_argument() {
    assert_eq!(route(Some("check")), Route::Gates);
    assert_eq!(route(Some("gate")), Route::Gates);
    assert_eq!(route(Some("soak")), Route::Soak);
    assert_eq!(route(Some("--help")), Route::Help);
    assert_eq!(route(Some("nonsense")), Route::Usage);
    assert_eq!(route(None), Route::Usage);
    assert_eq!(
        usage_line(),
        "usage: xtask <check | gate | doctor | policy | claims | regression | distribution | header | soak> [arguments]"
    );
    assert!(asked_for_help(&words(&["claims", "verify", "--help"])));
    assert!(!asked_for_help(&words(&["claims", "verify"])));
}

#[test]
fn tasks_every_gate_has_a_name_a_command_and_a_deadline() {
    let order: Vec<&str> = gates().into_iter().map(Gate::name).collect();
    assert_eq!(order, vec!["format", "lint", "documentation", "test", "claims"]);
    for gate in gates() {
        assert_eq!(Gate::parse(gate.name()), Some(gate));
    }
    assert_eq!(Gate::parse("nonsense"), None);
    assert_eq!(Gate::Format.command(), vec!["cargo", "fmt", "--all", "--check"]);
    assert_eq!(Gate::Documentation.environment(), vec![("RUSTDOCFLAGS", "-D warnings")]);
    assert!(Gate::Lint.environment().is_empty());
    assert_eq!(Gate::Format.deadline(), 300);
    assert_eq!(Gate::Lint.deadline(), 900);
    assert!(matches!(asked(&words(&["check"])), Asked::Check));
    assert!(matches!(asked(&words(&["gate", "lint"])), Asked::One(Gate::Lint)));
    assert!(matches!(asked(&words(&["gate", "nonsense"])), Asked::Usage));
    assert_eq!(gate_usage(), "usage: xtask check | xtask gate <format | lint | documentation | test | claims>");
}

#[test]
fn tasks_the_toolchain_channel_is_read_through_toml() {
    let channel = pinned_channel("/r/rust-toolchain.toml", "[toolchain]\nchannel = \"1.90.0\"\n").expect("pinned");
    assert_eq!(channel, "1.90.0");
    match pinned_channel("/r/rust-toolchain.toml", "[toolchain]\n") {
        Err(error @ DoctorError::Toolchain { .. }) => assert_eq!(error.message(), "/r/rust-toolchain.toml: no toolchain.channel"),
        other => panic!("expected no channel, got {other:?}"),
    }
    assert!(pinned_channel("/r/rust-toolchain.toml", "[toolchain").is_err());
}

#[test]
fn tasks_the_prerequisites_name_the_pinned_toolchain_first() {
    let listed = prerequisites("1.90.0");
    assert_eq!(listed.len(), 7);
    assert_eq!(listed[0].name, "rust toolchain 1.90.0");
    assert_eq!(listed[0].expected_output, Some("1.90.0".to_owned()));
    assert_eq!(listed[0].probe_line(), "cargo --version");
    assert_eq!(listed[2].probe_line(), "podman info --format {{.Host.NetworkBackend}}");
    assert_eq!(said("  \n"), "");
    assert_eq!(said(" boom \n"), "; it said: boom");
    assert_eq!(judge_output(&listed[0], "cargo 1.90.0 (abc)"), Ok(()));
    assert_eq!(
        judge_output(&listed[2], " cni\n"),
        Err("`podman info --format {{.Host.NetworkBackend}}` reports cni rather than netavark".to_owned())
    );
    let verdicts = vec![Ok(()), Err("`cargo nextest --version` failed".to_owned()), Ok(()), Ok(()), Ok(()), Ok(()), Ok(())];
    let examined = examine(listed, verdicts);
    let absent = missing(&examined);
    assert_eq!(absent.len(), 1);
    assert_eq!(absent[0].name, "cargo-nextest");
    assert_eq!(absent[0].message(), "cargo-nextest: `cargo nextest --version` failed\n  install: cargo install cargo-nextest --locked");
}

#[test]
fn tasks_the_header_reads_as_c() {
    let names = vec![("Session".to_owned(), "iznik_session".to_owned())];
    assert_eq!(
        readable("/**\n * See [`Session`] and [`Other`].\n * # Safety\n * [`unclosed\n */", &names),
        "/**\n * See `iznik_session` and `Other`.\n * Safety:\n * [`unclosed\n */"
    );
    let found = renames("/r/cbindgen.toml", "[export.rename]\nSession = \"iznik_session\"\nCount = 3\n").expect("TOML");
    assert_eq!(found, vec![("Session".to_owned(), "iznik_session".to_owned())]);
    assert!(renames("/r/cbindgen.toml", "[export").is_err());
    assert!(renames("/r/cbindgen.toml", "").expect("empty").is_empty());
}

#[test]
fn tasks_a_digest_is_the_lowercase_hex_sha256() {
    assert_eq!(digest_of(b"abc"), "ba7816bf8f01cfea414140de5dae2223b00361a396177a9cb410ff61f20015ad");
    assert_eq!(digest_of(b""), "e3b0c44298fc1c149afbf4c8996fb92427ae41e4649b934ca495991b7852b855");
}

#[test]
fn tasks_an_artifact_is_recorded_beside_its_checksum_and_manifest() {
    let artifact = Artifact { target: "x86_64-unknown-linux-musl".to_owned(), path: "/t/iznik-server".to_owned(), digest: "ab".to_owned(), bytes: 12 };
    assert_eq!(checksum_line("ab"), "ab  iznik-server\n");
    assert_eq!(
        manifest("0.4.0", 3, &artifact),
        "crate_version = \"0.4.0\"\nprotocol_version = 3\ntarget = \"x86_64-unknown-linux-musl\"\nbinary = \"iznik-server\"\nbytes = 12\nsha256 = \"ab\"\n"
    );
    assert!(within_ceiling(24 * 1024 * 1024).is_ok());
    assert_eq!(
        within_ceiling(24 * 1024 * 1024 + 1).expect_err("over").message(),
        "the artifact is 25165825 bytes, over the 25165824 ceiling"
    );
}

#[test]
fn tasks_the_protocol_version_is_read_from_its_declaration() {
    let source = "//! Messages.\n\n    pub const PROTOCOL_VERSION: u16 = 7;\n";
    assert_eq!(protocol_version("/r/message.rs", source).expect("declared"), 7);
    match protocol_version("/r/message.rs", "pub const OTHER: u16 = 1;\n") {
        Err(error @ DistributionError::Unreadable { .. }) => assert_eq!(
            error.message(),
            "/r/message.rs: does not hold the protocol version, declared as `pub const PROTOCOL_VERSION: u16 = `"
        ),
        other => panic!("expected unreadable, got {other:?}"),
    }
}

#[test]
fn tasks_a_target_is_one_of_the_known_triples() {
    assert_eq!(platform("aarch64-unknown-linux-musl").expect("known"), Platform::Linux);
    assert_eq!(platform("x86_64-apple-darwin").expect("known"), Platform::Darwin);
    assert_eq!(platform("aarch64-pc-windows-msvc").expect("known"), Platform::Windows);
    assert_eq!(platform("mips-unknown-none").expect_err("unknown").message(), "mips-unknown-none: not a target this builds for");
    assert_eq!(asked_target(&words(&["distribution", "--target", "a", "--target", "b"])), Ok("b".to_owned()));
    assert_eq!(asked_target(&words(&["distribution", "--fast"])), Err("--fast: unknown flag".to_owned()));
    assert_eq!(asked_target(&words(&["distribution", "--target"])), Err("--target: a triple must follow".to_owned()));
    assert_eq!(asked_target(&words(&["distribution"])), Err(distribution_usage()));
    assert_eq!(
        distribution_usage(),
        "usage: xtask distribution --target <x86_64-unknown-linux-musl | aarch64-unknown-linux-musl | aarch64-apple-darwin | x86_64-apple-darwin | x86_64-pc-windows-msvc | aarch64-pc-windows-msvc>"
    );
}

#[test]
fn tasks_a_linux_build_is_remapped_to_be_reproducible() {
    assert_eq!(targets(), vec!["x86_64-unknown-linux-musl", "aarch64-unknown-linux-musl"]);
    assert_eq!(built_at("/t", "x86_64-unknown-linux-musl"), "/t/x86_64-unknown-linux-musl/release/iznik-server");
    assert_eq!(
        rustflags("/r", words(&["-C", "target-feature=+crt-static"]), Some("/home/me/.cargo")),
        "-C\u{1f}target-feature=+crt-static\u{1f}--remap-path-prefix=/r=.\u{1f}--remap-path-prefix=/home/me/.cargo/registry/src=registry\u{1f}--remap-path-prefix=/home/me/.cargo/git/checkouts=checkouts"
    );
    assert_eq!(rustflags("/r", Vec::new(), None), "--remap-path-prefix=/r=.");
    let config = "[build]\nrustflags = [\"-D\", \"warnings\"]\n[target.x86_64-unknown-linux-musl]\nrustflags = [\"-C\", \"target-feature=+crt-static\", 3]\n";
    assert_eq!(
        configured("/r/.cargo/config.toml", config, "x86_64-unknown-linux-musl").expect("TOML"),
        words(&["-D", "warnings", "-C", "target-feature=+crt-static"])
    );
    assert_eq!(configured("/r/.cargo/config.toml", config, "aarch64-unknown-linux-musl").expect("TOML"), words(&["-D", "warnings"]));
    assert!(configured("/r/.cargo/config.toml", "[build", "x").is_err());
}

#[test]
fn tasks_the_application_builds_every_linux_server_by_default() {
    assert_eq!(default_servers(), words(&["x86_64-unknown-linux-musl", "aarch64-unknown-linux-musl"]));
    assert_eq!(servers(&words(&["app"])), Some(default_servers()));
    assert_eq!(servers(&words(&["app", "--target", "a", "--target", "b"])), Some(words(&["a", "b"])));
    assert_eq!(servers(&words(&["app", "--target"])), None);
    assert_eq!(servers(&words(&["app", "--fast"])), None);
}

fn elf(machine: u16, program_kinds: &[u32], section_kinds: &[u32]) -> Vec<u8> {
    let mut bytes = vec![0u8; 64];
    bytes[0..4].copy_from_slice(b"\x7fELF");
    bytes[18..20].copy_from_slice(&machine.to_le_bytes());
    let programs = bytes.len() as u64;
    for kind in program_kinds {
        let mut entry = vec![0u8; 56];
        entry[0..4].copy_from_slice(&kind.to_le_bytes());
        bytes.extend(entry);
    }
    let sections = bytes.len() as u64;
    for kind in section_kinds {
        let mut entry = vec![0u8; 64];
        entry[4..8].copy_from_slice(&kind.to_le_bytes());
        bytes.extend(entry);
    }
    bytes[32..40].copy_from_slice(&programs.to_le_bytes());
    bytes[40..48].copy_from_slice(&sections.to_le_bytes());
    bytes[54..56].copy_from_slice(&56u16.to_le_bytes());
    bytes[56..58].copy_from_slice(&(program_kinds.len() as u16).to_le_bytes());
    bytes[58..60].copy_from_slice(&64u16.to_le_bytes());
    bytes[60..62].copy_from_slice(&(section_kinds.len() as u16).to_le_bytes());
    bytes
}

#[test]
fn tasks_an_elf_says_its_machine_loader_and_symbols() {
    let static_stripped = elf(62, &[1, 1], &[0, 3]);
    let shape = elf_shape(&static_stripped).expect("walkable");
    assert_eq!((shape.machine, shape.interpreted, shape.symbols), (62, false, false));
    let dynamic = elf(183, &[6, 3], &[2]);
    let shape = elf_shape(&dynamic).expect("walkable");
    assert_eq!((shape.machine, shape.interpreted, shape.symbols), (183, true, true));
    assert_eq!(elf_shape(b"MZ").expect_err("not ELF"), ShapeError::NotTheFormat { format: "an ELF" });
    assert_eq!(elf_shape(b"\x7fELF").expect_err("short").message(), "it ends before its machine");
    let mut cut = elf(62, &[1], &[0]);
    cut.truncate(100);
    assert!(matches!(elf_shape(&cut), Err(ShapeError::Unwalkable { .. })));
    let empty_table = elf(62, &[], &[0]);
    assert_eq!(elf_shape(&empty_table).expect_err("no programs").message(), "its program header table cannot be walked: 0 entries of 56 bytes");
}

fn mach(cpu: u32, libraries: &[&str]) -> Vec<u8> {
    let mut bytes = vec![0u8; 32];
    bytes[0..4].copy_from_slice(&0xfeed_facfu32.to_le_bytes());
    bytes[4..8].copy_from_slice(&cpu.to_le_bytes());
    bytes[16..20].copy_from_slice(&(libraries.len() as u32 + 1).to_le_bytes());
    let mut segment = vec![0u8; 72];
    segment[0..4].copy_from_slice(&0x19u32.to_le_bytes());
    segment[4..8].copy_from_slice(&72u32.to_le_bytes());
    bytes.extend(segment);
    for library in libraries {
        let mut command = vec![0u8; 24];
        command.extend(library.as_bytes());
        command.push(0);
        while command.len() % 8 != 0 {
            command.push(0);
        }
        let size = command.len() as u32;
        command[0..4].copy_from_slice(&0x0cu32.to_le_bytes());
        command[4..8].copy_from_slice(&size.to_le_bytes());
        command[8..12].copy_from_slice(&24u32.to_le_bytes());
        bytes.extend(command);
    }
    bytes
}

#[test]
fn tasks_a_mach_o_says_its_cpu_and_what_it_links() {
    let shape = mach_shape(&mach(0x0100_000c, &["/usr/lib/libSystem.B.dylib"])).expect("walkable");
    assert_eq!(shape.cpu, 0x0100_000c);
    assert_eq!(shape.linked, vec!["/usr/lib/libSystem.B.dylib"]);
    assert_eq!(mach_shape(b"\xcf\xfa").expect_err("short").message(), "not a a 64-bit Mach-O file");
    let mut cut = mach(7, &["/usr/lib/libc.dylib"]);
    cut.truncate(110);
    assert!(matches!(mach_shape(&cut), Err(ShapeError::Unwalkable { .. })));
}

#[test]
fn tasks_golden_hex_round_trips() {
    assert_eq!(bytes("00ff7F").expect("hex"), vec![0x00, 0xff, 0x7f]);
    assert_eq!(hex(&[0x00, 0xff, 0x7f]), "00ff7f");
    assert_eq!(bytes("").expect("empty"), Vec::<u8>::new());
    match bytes("abc") {
        Err(error @ GoldenError::Hex { .. }) => assert_eq!(error.message(), "`abc` is not hex: an even count of hex digits"),
        other => panic!("expected a hex error, got {other:?}"),
    }
    assert!(bytes("zz").is_err());
    let all: Vec<u8> = (0..=255).collect();
    assert_eq!(bytes(&hex(&all)).expect("round trip"), all);
}

#[test]
fn distribution_sums_and_manifest_name_one_digest() {
    let artifact = Artifact {
        target: "x86_64-unknown-linux-musl".to_owned(),
        path: "target/distribution/x86_64-unknown-linux-musl/iznik-server".to_owned(),
        digest: "c0ffee".to_owned(),
        bytes: 12,
    };
    assert!(checksum_line(&artifact.digest).starts_with("c0ffee  "));
    assert!(manifest("1.2.3", 7, &artifact).ends_with("\nsha256 = \"c0ffee\"\n"));
}

#[test]
fn tasks_golden_lines_are_read_one_value_per_filled_line() {
    let values = iznik_kit::golden::lines("frames.jsonl", "{\"a\":1}\n\n   \n[2, 3]\n\"end\"\n").expect("JSON lines");
    assert_eq!(values.len(), 3);
    assert_eq!(values[0]["a"], 1);
    assert_eq!(values[1][1], 3);
    assert_eq!(values[2], "end");
    match iznik_kit::golden::lines("frames.jsonl", "{\"a\":1}\n\nnot json\n{\n") {
        Err(GoldenError::Parse { path, line, detail }) => {
            assert_eq!((path.as_str(), line), ("frames.jsonl", 3));
            assert!(!detail.is_empty());
        }
        other => panic!("expected the third line refused, got {other:?}"),
    }
    assert!(iznik_kit::golden::lines("empty.jsonl", "").expect("nothing").is_empty());
}

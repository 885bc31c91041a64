//! Edge cases, and an input for each error.

use std::io::Write;

use debian_repo::control::DebControl;
use debian_repo::deb::{DebianHandler, DebianOperation};
use debian_repo::error::AppError;
use debian_repo::hosted::{
    contents_entries, control_from_metadata_or_filename, discover_release_layout,
    parse_deb_filename, push_hosted_indexes, select_package_entries, ArtifactMetadata, ArtifactRow,
};
use debian_repo::index::{
    decode_debian_index_text, parse_packages, parse_packages_index, parse_sources,
};
use debian_repo::ordered::TextMap;
use debian_repo::release::{parse_in_release, parse_release, parse_release_gpg};
use debian_repo::serve::{
    build_catchall_response, build_text_response, check_flat_download, contents_are_fetched,
    decide_package_fetch, decide_pool_download, found_or_not_found, is_hosted_generated_path,
    package_headers, pool_artifact_path, DownloadAction, RemotePackage,
};
use debian_repo::signed::{public_key_reply, require_active_signing_key};
use debian_repo::stanza::{parse_debian_stanza_fields, split_debian_stanzas};
use debian_repo::upload::{
    admit_upload, build_debian_package_catalog_metadata, build_upload_receipt,
    debian_upload_component, debian_upload_distribution, package_description,
    prepare_debian_upload, prepare_pool_upload, prepare_raw_upload, UploadHeaders,
};
use debian_repo::verify::{find_synced_package_sha256, verify_index_against_release};

const CONTROL: &str = "Package: demo\nVersion: 1.0-1\nArchitecture: amd64\nSection: utils\nDescription: Demo\n";

fn append_member(out: &mut Vec<u8>, name: &str, content: &[u8]) {
    out.extend_from_slice(
        format!("{:<16}{:<12}{:<6}{:<6}{:<8}{:<10}`\n", name, 0, 0, 0, "100644", content.len())
            .as_bytes(),
    );
    out.extend_from_slice(content);
    if content.len() % 2 == 1 {
        out.push(b'\n');
    }
}

fn tar_of(path: &str, content: &str) -> Vec<u8> {
    let mut builder = tar::Builder::new(Vec::new());
    let mut header = tar::Header::new_gnu();
    header.set_size(content.len() as u64);
    header.set_mode(0o644);
    header.set_cksum();
    builder
        .append_data(&mut header, path, content.as_bytes())
        .unwrap();
    builder.into_inner().unwrap()
}

fn deb_with(member: &str, content: &[u8]) -> Vec<u8> {
    let mut deb = b"!<arch>\n".to_vec();
    append_member(&mut deb, "debian-binary", b"2.0\n");
    append_member(&mut deb, member, content);
    deb
}

fn gz(data: &[u8]) -> Vec<u8> {
    let mut encoder =
        flate2::write::GzEncoder::new(Vec::new(), flate2::Compression::default());
    encoder.write_all(data).unwrap();
    encoder.finish().unwrap()
}

fn demo_deb() -> Vec<u8> {
    deb_with("control.tar.gz", &gz(&tar_of("./control", CONTROL)))
}

fn message<T>(result: Result<T, AppError>) -> String {
    match result {
        Ok(_) => panic!("an error was expected"),
        Err(error) => error.message().to_string(),
    }
}

#[test]
fn control_is_found_in_every_compression() {
    let tar_bytes = tar_of("./control", CONTROL);
    let mut bz2 = bzip2::write::BzEncoder::new(Vec::new(), bzip2::Compression::default());
    bz2.write_all(&tar_bytes).unwrap();
    let mut xz = xz2::write::XzEncoder::new(Vec::new(), 6);
    xz.write_all(&tar_bytes).unwrap();
    for (name, content) in [
        ("control.tar", tar_bytes.clone()),
        ("control.tar.gz", gz(&tar_bytes)),
        ("control.tar.xz", xz.finish().unwrap()),
        ("control.tar.bz2", bz2.finish().unwrap()),
        (
            "control.tar.zst",
            zstd::stream::encode_all(tar_bytes.as_slice(), 3).unwrap(),
        ),
    ] {
        let control = DebianHandler::extract_control(&deb_with(name, &content))
            .unwrap_or_else(|error| panic!("{name}: {}", error.message()));
        assert_eq!(control.package, "demo");
        assert_eq!(control.section.as_deref(), Some("utils"));
    }
}

#[test]
fn broken_package_files_are_refused() {
    let truncated = &demo_deb()[..140];
    assert_eq!(
        message(DebianHandler::extract_control(truncated)),
        "Invalid .deb file: truncated ar member"
    );
    let other = deb_with("control.tar", &tar_of("./md5sums", "x"));
    assert!(message(DebianHandler::extract_control(&other)).contains("control file not found"));
    let garbage = deb_with("control.tar.gz", b"not gzip at all");
    assert!(DebianHandler::extract_control(&garbage).is_err());
    let garbage = deb_with("control.tar.zst", b"not zstd at all");
    assert!(DebianHandler::extract_control(&garbage).is_err());
    let bad = deb_with("control.tar", &tar_of("control", "Version: 1\n"));
    assert_eq!(
        message(DebianHandler::extract_control(&bad)),
        "Control file missing Package field"
    );
}

#[test]
fn a_package_file_has_to_match_its_name() {
    let handler = DebianHandler::new();
    let deb = demo_deb();
    assert!(handler
        .validate("pool/main/d/demo/demo_1.0-1_amd64.deb", &deb)
        .is_ok());
    assert!(message(handler.validate("pool/main/d/demo/other_1.0-1_amd64.deb", &deb))
        .contains("Package name mismatch"));
    assert!(message(handler.validate("pool/main/d/demo/demo_2.0_amd64.deb", &deb))
        .contains("Version mismatch"));
    assert!(message(handler.validate("pool/main/d/demo/demo_1.0-1_arm64.deb", &deb))
        .contains("Architecture mismatch"));
    assert!(handler.validate("dists/jammy/Release", b"").is_ok());

    let metadata = handler
        .parse_metadata("pool/main/d/demo/demo_1.0-1_amd64.deb", &deb)
        .unwrap();
    assert_eq!(metadata.info.operation, DebianOperation::Package);
    assert_eq!(metadata.control.unwrap().package, "demo");
}

#[test]
fn releases_need_their_fields() {
    for (text, error) in [
        ("", "Debian metadata is empty"),
        ("A: 1\n\nB: 2\n", "Expected one Debian metadata stanza"),
        (" x\n", "Debian metadata continuation without field"),
        ("Suite\n", "Malformed Debian metadata line 'Suite'"),
        ("Date: d\n", "Release file missing Suite field"),
        ("Suite: s\n", "Release file missing Date field"),
        (
            "Suite: s\nDate: d\n",
            "Release file missing Architectures field",
        ),
        (
            "Suite: s\nDate: d\nArchitectures: a\nSHA256:\n abc\n",
            "Release hash entry missing size",
        ),
        (
            "Suite: s\nDate: d\nArchitectures: a\nSHA256:\n abc x p\n",
            "Invalid Release hash size in 'abc x p'",
        ),
        (
            "Suite: s\nDate: d\nArchitectures: a\nSHA256:\n abc 1\n",
            "Release hash entry missing path",
        ),
    ] {
        assert_eq!(message(parse_release(text)), error, "{text:?}");
    }
    assert_eq!(
        message(parse_in_release("-----BEGIN PGP SIGNED MESSAGE-----x\n")),
        "Invalid InRelease clear-signature header"
    );
    assert_eq!(
        message(parse_in_release(
            "-----BEGIN PGP SIGNED MESSAGE-----\nHash: SHA256\n\n-----BEGIN PGP SIGNATURE-----\n"
        )),
        "InRelease missing signed Release payload"
    );
    assert_eq!(message(parse_release_gpg(b"")), "Release.gpg is empty");
    assert!(!parse_release_gpg(&[0x89, 0x01]).unwrap().is_armored);
    // A dash that was escaped for signing is restored.
    let release = parse_in_release(
        "-----BEGIN PGP SIGNED MESSAGE-----\nHash: SHA256\n\n- Suite: s\nDate: d\nArchitectures: a\n-----BEGIN PGP SIGNATURE-----\n",
    )
    .unwrap();
    assert_eq!(release.suite, "s");
}

#[test]
fn indexes_need_their_fields() {
    assert_eq!(
        message(parse_packages(
            "Package: p\nVersion: 1\nArchitecture: a\nSize: big\n"
        )),
        "Invalid Packages Size value 'big'"
    );
    assert_eq!(
        message(parse_packages("Package: p\n")),
        "Control file missing Version field"
    );
    assert!(parse_packages("").unwrap().is_empty());
    for (text, error) in [
        ("Version: 1\n", "Sources entry missing Package field"),
        ("Package: p\n", "Sources entry missing Version field"),
        (
            "Package: p\nVersion: 1\n",
            "Sources entry missing Directory field",
        ),
        (
            "Package: p\nVersion: 1\nDirectory: d\nFiles:\n m x f\n",
            "Invalid Files size in 'm x f'",
        ),
    ] {
        assert_eq!(message(parse_sources(text)), error);
    }
    assert!(message(decode_debian_index_text("P.gz", b"x", "Packages"))
        .starts_with("Failed to decompress Packages.gz: "));
    assert!(message(decode_debian_index_text("P.xz", b"x", "Packages"))
        .starts_with("Failed to decompress Packages.xz: "));
    assert!(message(parse_packages_index("P", &[0xff]))
        .starts_with("Packages index is not UTF-8: "));
    assert_eq!(
        decode_debian_index_text("P", "ü".as_bytes(), "Packages").unwrap(),
        "ü"
    );
}

#[test]
fn stanzas_are_cut_at_blank_lines() {
    assert_eq!(
        split_debian_stanzas("\n\nA: 1\n b\n \t\nB: 2\n\n\n"),
        vec!["A: 1\n b".to_string(), "B: 2".to_string()]
    );
    let fields = parse_debian_stanza_fields("A: 1\nB:\n  x\n y\nA: 2\n").unwrap();
    assert_eq!(fields.get("A").map(String::as_str), Some("2"));
    assert_eq!(fields.get("B").map(String::as_str), Some("x\ny"));
}

#[test]
fn paths_are_read_or_refused() {
    assert_eq!(
        message(DebianHandler::parse_path("some/random/path.txt")),
        "Invalid Debian repository path: some/random/path.txt"
    );
    assert_eq!(
        message(DebianHandler::parse_deb_filename("x.deb")),
        "Invalid Debian package filename: x.deb"
    );
    assert_eq!(
        pool_artifact_path("main", "d/demo/demo_1_amd64.deb"),
        "pool/main/d/demo/demo_1_amd64.deb"
    );
    let headers = package_headers("pool/main/d/demo/demo_1_amd64.deb", 7, "abc");
    assert_eq!(
        headers.content_disposition,
        "attachment; filename=\"demo_1_amd64.deb\""
    );
    assert_eq!(headers.content_length, 7);
    assert_eq!(headers.checksum_sha256, "abc");
}

#[test]
fn uploads_have_to_agree() {
    let deb = demo_deb();
    let mut headers = UploadHeaders::new();
    let upload = prepare_pool_upload(&headers, "main", "d/demo/demo_1.0-1_amd64.deb", &deb)
        .unwrap();
    assert_eq!(upload.artifact_path, "pool/main/d/demo/demo_1.0-1_amd64.deb");
    assert_eq!(upload.metadata.section.as_deref(), Some("utils"));
    let receipt = build_upload_receipt(&upload, "abc", 9);
    assert_eq!(receipt.package, "demo");
    assert_eq!(receipt.path, upload.artifact_path);
    assert_eq!((receipt.sha256.as_str(), receipt.size), ("abc", 9));

    let refused = |component: &str, path: &str, expected| {
        prepare_debian_upload(component, path, &deb, None, expected)
            .unwrap_err()
            .message
    };
    assert_eq!(
        refused("main", "demo.deb", None),
        "Invalid Debian package filename. Expected {name}_{version}_{arch}.deb"
    );
    assert_eq!(
        refused("main", "other_1.0-1_amd64.deb", None),
        "Package name mismatch: filename says 'other' but control says 'demo'"
    );
    assert_eq!(
        refused("main", "demo_2_amd64.deb", None),
        "Version mismatch: filename says '2' but control says '1.0-1'"
    );
    assert_eq!(
        refused("main", "demo_1.0-1_i386.deb", None),
        "Architecture mismatch: filename says 'i386' but control says 'amd64'"
    );
    assert_eq!(
        refused("main", "demo_1.0-1_amd64.deb", Some("i386")),
        "Architecture mismatch: upload metadata says 'i386' but control says 'amd64'"
    );
    assert!(
        prepare_debian_upload("main", "demo_1.0-1_amd64.deb", b"x", None, None)
            .unwrap_err()
            .message
            .starts_with("Invalid Debian package metadata: ")
    );

    headers.insert("X-Component", b"universe");
    assert_eq!(
        prepare_pool_upload(&headers, "main", "demo_1.0-1_amd64.deb", &deb)
            .unwrap_err()
            .message,
        "Component mismatch: path says 'main' but upload metadata says 'universe'"
    );
}

#[test]
fn raw_uploads_are_filed_by_name() {
    let deb = demo_deb();
    let mut headers = UploadHeaders::new();
    headers.insert("x-filename", b"demo_1.0-1_amd64.deb");
    headers.insert("X-Debian-Component", b" contrib ");
    headers.insert("X-Debian-Suite", b"jammy");
    let upload = prepare_raw_upload(&headers, &deb).unwrap();
    assert_eq!(
        upload.artifact_path,
        "pool/contrib/d/demo/demo_1.0-1_amd64.deb"
    );
    assert_eq!(upload.distribution.as_deref(), Some("jammy"));
    assert_eq!(upload.component, "contrib");

    let mut headers = UploadHeaders::new();
    headers.insert(
        "Content-Disposition",
        b"attachment; filename=\"demo_1.0-1_amd64.deb\"",
    );
    let upload = prepare_raw_upload(&headers, &deb).unwrap();
    assert_eq!(
        upload.artifact_path,
        DebianHandler::get_pool_path("main", "demo", "demo_1.0-1_amd64.deb")
    );

    let mut headers = UploadHeaders::new();
    headers.insert("X-Filename", b"demo.deb");
    assert_eq!(prepare_raw_upload(&headers, &deb).unwrap_err().status, 400);
}

#[test]
fn upload_headers_hold_identifiers() {
    let mut headers = UploadHeaders::new();
    headers.insert("X-Debian-Component", b"\xff");
    assert_eq!(
        debian_upload_component(&headers).unwrap_err().message,
        "Invalid Debian upload metadata header X-Debian-Component"
    );
    headers.insert("x-debian-component", b"  ");
    assert_eq!(
        debian_upload_component(&headers).unwrap_err().message,
        "Debian upload metadata header X-Debian-Component must not be empty"
    );
    headers.insert("X-DEBIAN-COMPONENT", "a".repeat(129).as_bytes());
    assert_eq!(
        debian_upload_component(&headers).unwrap_err().message,
        "Debian upload metadata header X-Debian-Component contains an invalid identifier"
    );
    headers.insert("X-Debian-Component", "a".repeat(128).as_bytes());
    assert!(debian_upload_component(&headers).unwrap().is_some());
    // The first of the names counts.
    headers.insert("X-Distribution", b"last");
    headers.insert("X-Debian-Codename", b"second");
    assert_eq!(
        debian_upload_distribution(&headers).unwrap().as_deref(),
        Some("second")
    );
    assert_eq!(
        debian_upload_distribution(&UploadHeaders::new()).unwrap(),
        None
    );
}

#[test]
fn catalog_and_conflict() {
    let upload = prepare_debian_upload(
        "main/debian-installer",
        "d/demo/demo_1.0-1_amd64.deb",
        &demo_deb(),
        Some("jammy".to_string()),
        Some("amd64"),
    )
    .unwrap();
    let catalog = build_debian_package_catalog_metadata(&upload);
    assert_eq!(catalog.package_type, "udeb");
    assert_eq!(catalog.section.as_deref(), Some("debian-installer"));
    assert_eq!(catalog.distribution.as_deref(), Some("jammy"));
    let blank = DebControl {
        description: Some(" \n".to_string()),
        ..DebControl::default()
    };
    assert_eq!(package_description(&blank), None);
    assert_eq!(package_description(&upload.control), Some("Demo"));
    assert_eq!(admit_upload(false), Ok(()));
    let conflict = admit_upload(true).unwrap_err();
    assert_eq!(
        (conflict.status, conflict.message.as_str()),
        (409, "Package already exists")
    );
}

fn stored(path: &str, metadata: Option<ArtifactMetadata>) -> ArtifactRow {
    ArtifactRow {
        path: path.to_string(),
        size: -1,
        sha256: "abc".to_string(),
        sha1: None,
        md5: None,
        metadata,
    }
}

fn no_metadata() -> ArtifactMetadata {
    ArtifactMetadata {
        control: None,
        package: None,
        name: None,
        version: None,
        architecture: None,
        description: None,
        maintainer: None,
        section: None,
        priority: None,
        homepage: None,
        source: None,
        component: None,
        distribution: None,
    }
}

#[test]
fn hosted_packages_are_described_by_what_is_known() {
    let info = parse_deb_filename("demo_1_amd64.deb").unwrap();
    let named = control_from_metadata_or_filename(None, &info);
    assert_eq!(named.package, "demo");
    let partial = ArtifactMetadata {
        version: Some("2".to_string()),
        section: Some("web".to_string()),
        ..no_metadata()
    };
    let control = control_from_metadata_or_filename(Some(&partial), &info);
    assert_eq!(
        (control.package.as_str(), control.version.as_str()),
        ("demo", "2")
    );
    assert_eq!(control.section.as_deref(), Some("web"));

    let rows = [
        stored("pool/main/d/demo/demo_1_amd64.deb", None),
        stored("pool/contrib/d/data/data_1_all.deb", None),
        stored("pool/main/readme.txt", None),
    ];
    let entries = select_package_entries(&rows, "jammy", "amd64");
    assert_eq!(entries.len(), 2);
    assert_eq!(
        contents_entries(&entries),
        vec![
            (
                "pool/main/d/demo/demo_1_amd64.deb".to_string(),
                "demo".to_string()
            ),
            (
                "pool/contrib/d/data/data_1_all.deb".to_string(),
                "data".to_string()
            ),
        ]
    );
    let (components, architectures) = discover_release_layout(&rows);
    assert_eq!(
        components.items(),
        &vec!["contrib".to_string(), "main".to_string()]
    );
    assert_eq!(architectures.items(), &vec!["amd64".to_string()]);

    let mut files = Vec::new();
    push_hosted_indexes(&mut files, "main", "amd64", &entries, "contents").unwrap();
    let paths: Vec<&str> = files.iter().map(|(path, _)| path.as_str()).collect();
    assert_eq!(
        paths,
        vec![
            "main/binary-amd64/Packages",
            "main/binary-amd64/Packages.gz",
            "main/binary-amd64/Packages.xz",
            "main/Contents-amd64",
            "main/Contents-amd64.gz",
            "main/Contents-amd64.xz",
        ]
    );
    let text = String::from_utf8(files[0].1.clone()).unwrap();
    // A size below zero is written as zero.
    assert!(text.contains("Size: 0\n"));
}

#[test]
fn digests_of_synced_packages_are_found() {
    let texts = vec![
        "@ref:main/binary-amd64/Packages".to_string(),
        "not an index".to_string(),
        "Package: p\nVersion: 1\nArchitecture: a\nFilename: pool/p.deb\nSHA256: AB\n".to_string(),
    ];
    assert_eq!(
        find_synced_package_sha256(&texts, "/pool/p.deb").as_deref(),
        Some("ab")
    );
    assert_eq!(find_synced_package_sha256(&texts, "pool/q.deb"), None);
}

#[test]
fn index_complaints_are_exact() {
    let release =
        parse_release("Suite: s\nDate: d\nArchitectures: a\nSHA256:\n ab 2 Packages\n").unwrap();
    assert_eq!(
        verify_index_against_release(&release, "Packages", b"xyz", true),
        Err("index Packages size 3 does not match Release size 2".to_string())
    );
    assert_eq!(
        verify_index_against_release(&release, "Packages", b"xy", false),
        Err("index Packages SHA256 checksum does not match Release".to_string())
    );
    assert_eq!(
        verify_index_against_release(&release, "Sources", b"", true),
        Err("index Sources has no SHA256/SHA512 entry in the verified Release".to_string())
    );
}

#[test]
fn answers_are_exact() {
    assert_eq!(
        decide_pool_download(true, debian_repo::members::RepositoryType::Local, false),
        Ok(DownloadAction::Stored)
    );
    assert_eq!(
        decide_pool_download(false, debian_repo::members::RepositoryType::Virtual, false),
        Ok(DownloadAction::Members)
    );
    let refusal =
        decide_pool_download(false, debian_repo::members::RepositoryType::Remote, false)
            .unwrap_err();
    assert_eq!(
        (refusal.status, refusal.message.as_str()),
        (404, "Package not found")
    );
    assert_eq!(found_or_not_found(None).unwrap_err().message, "Not found");
    let reply = build_text_response("ü");
    assert_eq!(reply.content_length, 2);
    assert_eq!(
        build_catchall_response("i18n/Translation-en.bz2", vec![1], None).content_type,
        "application/x-bzip2"
    );
    assert!(is_hosted_generated_path("by-hash/SHA256/ab"));
    assert!(is_hosted_generated_path("main/Contents-amd64.gz"));
    assert!(!is_hosted_generated_path("main/source/Sources"));
    assert!(contents_are_fetched(
        debian_repo::members::RepositoryType::Virtual
    ));
    assert_eq!(
        check_flat_download(None, true, Ok(())).unwrap_err().status,
        404
    );
    let no_proxy = decide_package_fetch(RemotePackage {
        has_proxy: false,
        config: None,
        allowed: true,
        path_check: Ok(()),
        generation_active: false,
        expected_sha256: None,
    })
    .unwrap_err();
    assert_eq!(no_proxy.message, "Package not found");
}

#[test]
fn keys_are_required() {
    assert_eq!(require_active_signing_key(Ok(Some(7))), Ok(7));
    let missing = require_active_signing_key::<u8>(Ok(None)).unwrap_err();
    assert_eq!(missing.status, 404);
    let failed = require_active_signing_key::<u8>(Err("db".to_string())).unwrap_err();
    assert_eq!(
        (failed.status, failed.message.as_str()),
        (500, "Failed to load signing key: db")
    );
    assert_eq!(
        public_key_reply(Ok(Some("PEM".to_string())))
            .unwrap()
            .content_type,
        "application/pgp-keys"
    );
    assert_eq!(public_key_reply(Ok(None)).unwrap_err().status, 404);
    assert_eq!(
        public_key_reply(Err("db".to_string())).unwrap_err().message,
        "Failed to retrieve public key: db"
    );
}

#[test]
fn unknown_control_fields_are_kept_as_written() {
    let control = DebianHandler::parse_control(
        "package: p\nVERSION: 1\nArchitecture: a\nX-Foo: bar\nno colon\nDepends: a,, b\n",
    )
    .unwrap();
    assert_eq!(control.package, "p");
    assert_eq!(control.version, "1");
    assert_eq!(
        control.depends,
        Some(vec!["a".to_string(), "b".to_string()])
    );
    let mut expected: TextMap<String> = TextMap::new();
    expected.insert("X-Foo".to_string(), "bar".to_string());
    assert_eq!(control.extra.len(), expected.len());
    assert_eq!(control.extra.get("X-Foo"), expected.get("X-Foo"));
}

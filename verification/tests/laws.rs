//! What holds across several functions, on concrete values.

use std::collections::BTreeMap;
use std::io::Read;

use debian_repo::cache::{
    decide_debian_cache_action, is_stale_copy, DebianCacheAction, DebianCacheDecisionInput,
};
use debian_repo::config::DebianRepositoryConfig;
use debian_repo::control::DebControl;
use debian_repo::deb::{DebianHandler, DebianOperation};
use debian_repo::digest::{calculate_sha256_hex, calculate_sha512_hex};
use debian_repo::dists::{
    begin_synced_response, build_index_reply, build_synced_dists_index_response, dists_route,
    follow_synced_reference, synced_dists_config_key, synced_dists_key_prefix,
    synced_release_config_key, DistsRoute, PackagesExt, SyncedStep,
};
use debian_repo::emit::{generate_packages_entry, generate_release_at};
use debian_repo::generated::{
    build_generated_packages_text, build_generated_sources_text, build_synced_generated_metadata,
};
use debian_repo::hosted::{
    append_by_hash_release_files, build_packages_text, build_release_content_at,
    find_release_file, DigestedFile, PackageEntry,
};
use debian_repo::http::Refusal;
use debian_repo::index::{
    parse_packages, parse_sources, PackagesEntry, SourceFileEntry, SourcesEntry,
};
use debian_repo::members::{
    next_remote_member, Member, MemberWalk, RepositoryType, WalkStep,
};
use debian_repo::ordered::{TextMap, TextSet};
use debian_repo::plan::{build_debian_sync_plan, DebianSyncDownloadPolicy};
use debian_repo::release::{parse_in_release, parse_release, ReleaseHash};
use debian_repo::select::{
    filter_release_package_indexes, filter_release_source_indexes, package_matches_sync_index,
    DebianSyncFilter,
};
use debian_repo::serve::{
    decide_dists_action, decide_package_fetch, generation_candidates, PackageFetch, RemotePackage,
};
use debian_repo::signed::{
    begin_signed_release, finish_signed_release, SignStep, SignedReleaseCache,
    SignedReleaseVariant,
};
use debian_repo::sync::{SyncAction, SyncEvent, SyncRun};
use debian_repo::upload::{prepare_raw_upload, UploadHeaders};
use debian_repo::verify::{
    find_synced_package_sha256, sha256_for_filename_in_packages_text, verify_index_against_release,
};

fn control(package: &str, architecture: &str) -> DebControl {
    DebControl {
        package: package.to_string(),
        version: "1:2.0-1".to_string(),
        architecture: architecture.to_string(),
        ..DebControl::default()
    }
}

fn entry(package: &str, architecture: &str) -> PackagesEntry {
    let mut extra: TextMap<String> = TextMap::new();
    extra.insert("Multi-Arch".to_string(), "same".to_string());
    extra.insert("size".to_string(), "lower case is another field".to_string());
    PackagesEntry {
        control: DebControl {
            maintainer: Some("M <m@example.test>".to_string()),
            installed_size: Some(42),
            depends: Some(vec!["libc6 (>= 2.36)".to_string(), "a | b".to_string()]),
            description: Some("short\nlong\n.\nmore".to_string()),
            extra,
            ..control(package, architecture)
        },
        filename: Some(format!("pool/main/{package}_{architecture}.deb")),
        size: Some(1234),
        md5sum: None,
        sha1: Some("s1".to_string()),
        sha256: Some("s256".to_string()),
    }
}

#[test]
fn written_index_reads_back() {
    let entries = vec![entry("nginx", "amd64"), entry("docs", "all")];
    let text = build_generated_packages_text(&entries, "amd64", &["amd64".to_string()]);
    let read = parse_packages(&text).unwrap();
    assert_eq!(read, entries);
}

#[test]
fn generated_entry_reads_back() {
    let text = generate_packages_entry(&control("nginx", "amd64"), "pool/n.deb", 7, "m", "s");
    let read = parse_packages(&text).unwrap();
    assert_eq!(read.len(), 1);
    assert_eq!(read[0].control.package, "nginx");
    assert_eq!(read[0].control.version, "1:2.0-1");
    assert_eq!(read[0].filename.as_deref(), Some("pool/n.deb"));
    assert_eq!(read[0].size, Some(7));
    assert_eq!(read[0].md5sum.as_deref(), Some("m"));
    assert_eq!(read[0].sha1, None);
    assert_eq!(read[0].sha256.as_deref(), Some("s"));
}

fn source_file(name: &str, md5: Option<&str>, sha256: Option<&str>) -> SourceFileEntry {
    SourceFileEntry {
        filename: name.to_string(),
        size: 11,
        md5sum: md5.map(str::to_string),
        sha1: None,
        sha256: sha256.map(str::to_string),
        sha512: None,
    }
}

#[test]
fn written_sources_read_back() {
    let mut extra: TextMap<String> = TextMap::new();
    extra.insert("Format".to_string(), "3.0 (quilt)".to_string());
    extra.insert("Package-List".to_string(), "nginx deb\nnginx-doc deb".to_string());
    let sources = vec![
        SourcesEntry {
            package: "nginx".to_string(),
            version: "1.0-1".to_string(),
            directory: "pool/main/n/nginx".to_string(),
            files: vec![
                source_file("nginx_1.0-1.dsc", Some("m"), Some("s")),
                source_file("nginx_1.0.orig.tar.xz", None, Some("t")),
                source_file("nginx_1.0.patch", Some("n"), None),
            ],
            extra,
        },
        SourcesEntry {
            package: "apt".to_string(),
            version: "2.6".to_string(),
            directory: ".".to_string(),
            files: vec![],
            extra: TextMap::new(),
        },
    ];
    let text = build_generated_sources_text(&sources);
    assert!(text.contains("Files:\n m 11 nginx_1.0-1.dsc\n n 11 nginx_1.0.patch\n"));
    assert_eq!(parse_sources(&text).unwrap(), sources);
}

#[test]
fn hosted_index_reads_back() {
    let hosted = vec![
        PackageEntry {
            control: entry("nginx", "amd64").control,
            filename: "pool/main/n/nginx_amd64.deb".to_string(),
            size: 99,
            sha256: "s".to_string(),
            sha1: None,
            md5: Some("m".to_string()),
        },
        PackageEntry {
            control: control("docs", "all"),
            filename: "pool/main/d/docs_all.deb".to_string(),
            size: -1,
            sha256: "t".to_string(),
            sha1: Some("u".to_string()),
            md5: None,
        },
    ];
    let read = parse_packages(&build_packages_text(&hosted)).unwrap();
    assert_eq!(read.len(), 2);
    for (read, hosted) in read.iter().zip(&hosted) {
        assert_eq!(read.control, hosted.control);
        assert_eq!(read.filename.as_ref(), Some(&hosted.filename));
        assert_eq!(read.sha256.as_ref(), Some(&hosted.sha256));
        assert_eq!(read.sha1, hosted.sha1);
        assert_eq!(read.md5sum, hosted.md5);
    }
    assert_eq!(read[0].size, Some(99));
    assert_eq!(read[1].size, Some(0));
}

fn file(path: &str, bytes: &[u8]) -> DigestedFile {
    DigestedFile {
        path: path.to_string(),
        bytes: bytes.to_vec(),
        md5: "m5".to_string(),
        sha1: "s1".to_string(),
    }
}

fn set(items: &[&str]) -> TextSet {
    TextSet::of(&items.iter().map(|s| s.to_string()).collect())
}

#[test]
fn published_release_vouches_for_its_files() {
    let files = [
        ("main/source/Sources", b"two".as_slice()),
        ("main/binary-amd64/Packages", b"one".as_slice()),
        ("main/Contents-amd64", b"".as_slice()),
    ];
    for components in [set(&["main"]), set(&[""])] {
        let text = build_release_content_at(
            "jammy",
            Some("jammy"),
            Some("A mirror\nof two lines"),
            &components,
            &set(&["amd64", "arm64"]),
            files.iter().map(|(p, b)| file(p, b)).collect(),
            "Tue, 07 Jul 2026 12:00:00 UTC",
        );
        let release = parse_release(&text).unwrap();
        assert_eq!(release.architectures, vec!["amd64", "arm64"]);
        for (path, bytes) in files {
            assert_eq!(
                verify_index_against_release(&release, path, bytes, true),
                Ok(())
            );
            assert!(verify_index_against_release(&release, path, b"tampered", true).is_err());
        }
        assert_eq!(release.sha256.len(), 3);
        assert_eq!(release.sha256[0].path, "main/Contents-amd64");
        assert_eq!(release.md5sum[1].hash, "m5");
    }
}

#[test]
fn release_text_is_exact() {
    let text = generate_release_at(
        "stable",
        Some("bookworm"),
        &["arm64".to_string(), "amd64".to_string()],
        &["main".to_string()],
        vec![ReleaseHash {
            hash: "abc".to_string(),
            size: 5,
            path: "main/binary-amd64/Packages".to_string(),
        }],
        "Tue, 7 Jul 2026 12:00:00 +0000",
    );
    assert_eq!(
        text,
        "Suite: stable\nCodename: bookworm\nDate: Tue, 7 Jul 2026 12:00:00 +0000\n\
         Architectures: amd64 arm64\nComponents: main\nSHA256:\n abc 5 main/binary-amd64/Packages\n"
    );
}

#[test]
fn generated_release_reads_back() {
    let hash = |path: &str| ReleaseHash {
        hash: "abc".to_string(),
        size: 5,
        path: path.to_string(),
    };
    for (components, hashes) in [
        (vec!["main".to_string()], vec![hash("b"), hash("a")]),
        (vec![], vec![]),
    ] {
        let text = generate_release_at(
            "stable",
            Some(" bookworm "),
            &["arm64".to_string(), "amd64".to_string()],
            &components,
            hashes.clone(),
            "today",
        );
        let read = parse_release(&text).unwrap();
        assert_eq!(read.suite, "stable");
        assert_eq!(read.codename.as_deref(), Some("bookworm"));
        assert_eq!(read.date, "today");
        assert_eq!(read.architectures, vec!["amd64", "arm64"]);
        assert_eq!(read.components, components);
        let back: Vec<ReleaseHash> = hashes.into_iter().rev().collect();
        assert_eq!(read.sha256, back);
        assert!(read.origin.is_none() && read.md5sum.is_empty() && read.extra.len() == 0);
    }
}

#[test]
fn signed_release_reads_alike() {
    let body = "Suite: jammy\nDate: today\nArchitectures: amd64\nX: 1\n- odd: 2\n";
    let signed = "-----BEGIN PGP SIGNED MESSAGE-----\nHash: SHA512\n\nSuite: jammy\nDate: today\n\
         Architectures: amd64\nX: 1\n- - odd: 2\n-----BEGIN PGP SIGNATURE-----\n\nabc\n";
    let a = parse_release(body).unwrap();
    let b = parse_in_release(signed).unwrap();
    assert_eq!(a.suite, b.suite);
    assert_eq!(a.date, b.date);
    assert_eq!(a.architectures, b.architectures);
    assert_eq!(a.extra, b.extra);
    assert_eq!(b.extra.get("- odd").map(String::as_str), Some("2"));
}

#[test]
fn signed_release_reads_alike_however_its_lines_end() {
    let head = "-----BEGIN PGP SIGNED MESSAGE-----\nHash: SHA256\n\n";
    for body in [
        "Suite: jammy\nDate: today\nArchitectures: amd64",
        "Suite: jammy\r\nDate: today\r\nArchitectures: amd64\r\n",
        "\nSuite: jammy\nDate: today\nArchitectures: amd64\r",
        "Suite: jammy\nDate: today\nArchitectures: amd64\nX: 1\n-: 2\n\n",
        "Suite: jammy\r\r\r\r\nDate: today\r\r\nArchitectures: amd64\r\r\r\r\n all\r\r\r\r\n arm64\n",
        "Suite: jammy\nDate: today\nArchitectures: amd64\nSHA256:\r\r\r\r\n aa 1 x\r\r\r\r\n bb 2 y\n",
        "Suite: jammy\nDate: today\nArchitectures: amd64\nDescription: a\n b\r\r\n c\r\r\r\r\nX: 1\n",
    ] {
        let mut signed = head.to_string();
        for line in body.lines() {
            if line.starts_with('-') {
                signed.push_str("- ");
            }
            signed.push_str(line);
            signed.push('\n');
        }
        signed.push_str("-----BEGIN PGP SIGNATURE-----\nSuite: forged\n");
        let a = parse_release(body).unwrap();
        let b = parse_in_release(&signed).unwrap();
        assert_eq!(
            (&a.suite, &a.date, &a.architectures, &a.extra),
            (&b.suite, &b.date, &b.architectures, &b.extra)
        );
        assert_eq!((&a.sha256, &a.description), (&b.sha256, &b.description));
        assert_eq!(b.suite, "jammy");
    }
}

#[test]
fn blank_metadata_is_empty() {
    for text in ["", "\n", " \n\t\r\n\n"] {
        let error = parse_release(text).unwrap_err();
        assert_eq!(error.message(), "Debian metadata is empty");
        assert!(parse_packages(text).unwrap().is_empty());
    }
}

#[test]
fn unsigned_release_reads_alike() {
    let text = "Suite: jammy\nDate: today\nArchitectures: amd64\n";
    let a = parse_release(text).unwrap();
    let b = parse_in_release(text).unwrap();
    assert_eq!(a.suite, b.suite);
    assert_eq!(a.architectures, b.architectures);
}

#[test]
fn pool_path_leads_back_to_its_package() {
    let path = DebianHandler::get_pool_path("main", "libssl3", "libssl3_3.0-1_amd64.deb");
    let info = DebianHandler::parse_path(&path).unwrap();
    assert_eq!(info.component.as_deref(), Some("main"));
    assert_eq!(info.package.as_deref(), Some("libssl3"));
    assert_eq!(info.version.as_deref(), Some("3.0-1"));
    assert_eq!(info.arch.as_deref(), Some("amd64"));
}

#[test]
fn pool_package_is_one_whatever_it_is_called() {
    for (path, package) in [
        ("pool/main/r/Release-notes/Release-notes_1.0_all.deb", "Release-notes"),
        ("/pool/main/p/Packages-tool/Packages-tool_1.0_all.deb", "Packages-tool"),
        ("pool/main/i/InRelease/InRelease_1.0_all.udeb", "InRelease"),
    ] {
        let info = DebianHandler::parse_path(path).unwrap();
        assert_eq!(info.operation, DebianOperation::Package);
        assert_eq!(info.package.as_deref(), Some(package));
        assert_eq!(info.version.as_deref(), Some("1.0"));
        assert_eq!(info.arch.as_deref(), Some("all"));
        assert_eq!(info.component.as_deref(), Some("main"));
        assert_eq!(info.distribution, None);
    }
    // Any other path is read as what its text suggests first.
    for (path, operation) in [
        ("pool/main/r/Release.deb", DebianOperation::Release),
        ("pool/main/r/Release-notes/odd.deb", DebianOperation::Release),
        ("pool/main/InRelease_1.0_all.deb", DebianOperation::Release),
        ("pool/main/p/Packages/odd.udeb", DebianOperation::Packages),
        ("other/Packages_1.0_all.deb", DebianOperation::Packages),
    ] {
        let info = DebianHandler::parse_path(path).unwrap();
        assert_eq!(info.operation, operation);
        assert_eq!(info.package, None);
    }
    let error = DebianHandler::parse_path("pool/main/n/notes/odd.deb").unwrap_err();
    assert_eq!(error.message(), "Invalid Debian package filename: odd.deb");
    // The package is looked into, though its path holds the name of another file.
    assert!(DebianHandler::new()
        .validate("pool/main/r/Release-notes/Release-notes_1.0_all.deb", b"no package")
        .is_err());
}

#[test]
fn listed_file_has_its_own_digest() {
    let text = "Package: b\nVersion: 1\nArchitecture: all\nFilename: b.deb\nSHA256: aa\n\n\
         Package: ab\nVersion: 1\nArchitecture: all\nFilename: a/ab.deb\nSHA256: BB\n";
    let digest = |name: &str| sha256_for_filename_in_packages_text(text, name);
    assert_eq!(digest("a/ab.deb").as_deref(), Some("bb"));
    assert_eq!(digest(" /a/ab.deb ").as_deref(), Some("bb"));
    assert_eq!(digest("b.deb").as_deref(), Some("aa"));
    // Paths meet at a slash only, from either side.
    assert_eq!(digest("ab.deb").as_deref(), Some("bb"));
    assert_eq!(digest("pool/b.deb").as_deref(), Some("aa"));
    assert_eq!(digest("cb.deb"), None);
    assert_eq!(digest(".deb"), None);
    assert_eq!(digest("/"), None);

    // A file that is listed without a digest is given no other's.
    let bare = "Package: b\nVersion: 1\nArchitecture: all\nFilename: a/b.deb\n\n\
         Package: b\nVersion: 1\nArchitecture: all\nFilename: b.deb\nSHA256: aa\n";
    assert_eq!(sha256_for_filename_in_packages_text(bare, "a/b.deb"), None);

    // Stored indexes are taken together.
    let near = "Package: b\nVersion: 1\nArchitecture: all\nFilename: b.deb\nSHA256: aa\n";
    let exact = "Package: b\nVersion: 1\nArchitecture: all\nFilename: pool/b.deb\nSHA256: CC\n";
    let texts = vec![near.to_string(), exact.to_string()];
    assert_eq!(
        find_synced_package_sha256(&texts, "pool/b.deb").as_deref(),
        Some("cc")
    );
    assert_eq!(
        find_synced_package_sha256(&texts, "main/b.deb").as_deref(),
        Some("aa")
    );
}

#[test]
fn joined_indexes_read_in_turn() {
    let package = |name: &str, end: &str| {
        format!("Package: {name}\nVersion: 1\nArchitecture: all{end}")
    };
    for end in ["", "\n", "\r", "\r\n", "\n\n"] {
        let x = package("a", end);
        let y = package("b", "\n");
        let both = parse_packages(&format!("{x}\n\n{y}")).unwrap();
        let mut turn = parse_packages(&x).unwrap();
        turn.extend(parse_packages(&y).unwrap());
        assert_eq!(both, turn);
        assert_eq!(both.len(), 2);
    }
    let good = package("a", "\n");
    for text in [format!("{good}\n\nbad\n"), format!("bad\n\n\n{good}")] {
        assert!(parse_packages(&text).is_err());
    }
    let source = |name: &str| {
        format!(
            "Package: {name}\nVersion: 1\nDirectory: pool\nFiles:\n m 2 {name}.dsc\n\
             Checksums-Sha256:\n DEF 2 {name}.dsc\n"
        )
    };
    let mut turn = parse_sources(&source("a")).unwrap();
    turn.extend(parse_sources(&source("b")).unwrap());
    assert_eq!(turn.len(), 2);
    assert_eq!(
        parse_sources(&format!("{}\n\n{}", source("a"), source("b"))).unwrap(),
        turn
    );
}

#[test]
fn digests_are_those_of_the_standard() {
    assert_eq!(
        calculate_sha256_hex(b"abc"),
        "ba7816bf8f01cfea414140de5dae2223b00361a396177a9cb410ff61f20015ad"
    );
    assert_eq!(
        calculate_sha512_hex(b"abc"),
        "ddaf35a193617abacc417349ae20413112e6fa4e89a97ea20a9eeee64b55d39a\
         2192992a274fc1a836ba3c23a3feebbd454d4423643ce80e2a9ac94fa54ca49f"
    );
}

#[test]
fn every_form_of_an_index_holds_its_text() {
    let text = "Package: nginx\nVersion: 1.0 – ü\n";
    let plain = build_index_reply(PackagesExt::Plain, text, "text/plain").unwrap();
    assert_eq!(plain.content_type, "text/plain");
    assert_eq!(plain.body, text.as_bytes());
    assert_eq!(plain.content_length, text.len() as u64);

    let gz = build_index_reply(PackagesExt::Gz, text, "text/plain").unwrap();
    assert_eq!(gz.content_type, "application/gzip");
    assert_ne!(gz.body, text.as_bytes());
    let mut read = String::new();
    flate2::read::GzDecoder::new(gz.body.as_slice())
        .read_to_string(&mut read)
        .unwrap();
    assert_eq!(read, text);

    let xz = build_index_reply(PackagesExt::Xz, text, "text/plain").unwrap();
    assert_eq!(xz.content_type, "application/x-xz");
    let mut read = String::new();
    xz2::read::XzDecoder::new(xz.body.as_slice())
        .read_to_string(&mut read)
        .unwrap();
    assert_eq!(read, text);
}

#[test]
fn all_forms_of_an_index_share_a_key() {
    let plain = synced_dists_config_key("jammy", "main/binary-amd64/Packages");
    assert!(plain.starts_with(&synced_dists_key_prefix("jammy")));
    assert_eq!(
        plain,
        synced_dists_config_key("jammy", "main/binary-amd64/Packages.gz")
    );
    assert_eq!(
        plain,
        synced_dists_config_key("jammy", "main/binary-amd64/Packages.xz")
    );
    assert_ne!(
        plain,
        synced_dists_config_key("noble", "main/binary-amd64/Packages")
    );
    assert_eq!(
        synced_release_config_key("jammy"),
        "debian_synced_release:jammy"
    );
}

#[test]
fn a_path_asks_for_one_thing() {
    assert!(matches!(
        dists_route("main/binary-amd64/Packages.gz"),
        DistsRoute::Packages(_)
    ));
    assert!(matches!(
        dists_route("main/Contents-amd64"),
        DistsRoute::Contents(_)
    ));
    assert_eq!(dists_route("main/i18n/Translation-en"), DistsRoute::Other);
}

fn one_package_plan() -> (
    debian_repo::plan::DebianSyncPlan,
    TextMap<Vec<PackagesEntry>>,
) {
    let release = parse_release("Suite: jammy\nDate: d\nArchitectures: amd64\nComponents: main\nSHA256:\n a 1 main/binary-amd64/Packages.xz\n").unwrap();
    let mut packages: TextMap<Vec<PackagesEntry>> = TextMap::new();
    packages.insert(
        "main/binary-amd64/Packages.xz".to_string(),
        vec![entry("nginx", "amd64")],
    );
    let plan = build_debian_sync_plan(
        "jammy",
        &release,
        &DebianSyncFilter::default(),
        &packages,
        &TextMap::new(),
        DebianSyncDownloadPolicy::Immediate,
    );
    (plan, packages)
}

#[test]
fn served_index_is_the_listed_one() {
    let (plan, packages) = one_package_plan();
    let generated = build_synced_generated_metadata(
        &plan,
        &packages,
        &TextMap::new(),
        &[],
        &TextMap::new(),
    )
    .unwrap();
    for form in ["", ".gz", ".xz"] {
        let path = format!("main/binary-amd64/Packages{form}");
        let (_, listed) = generated
            .release_files
            .iter()
            .find(|(p, _)| *p == path)
            .unwrap();
        let stored = generated
            .plain_indexes
            .get("main/binary-amd64/Packages")
            .unwrap();
        let served = build_synced_dists_index_response(&path, stored).unwrap();
        assert_eq!(&served.body, listed);

        // The alias by digest refers to the same file.
        let alias = format!("by-hash/SHA256/{}", calculate_sha256_hex(listed));
        let reference = generated.plain_indexes.get(&alias).map(String::as_str);
        let target = match begin_synced_response(&alias, reference).unwrap() {
            SyncedStep::Follow(target) => target,
            other => panic!("an alias is a reference, not {other:?}"),
        };
        assert_eq!(target, path);
        let followed = follow_synced_reference(&target, Some(stored))
            .unwrap()
            .unwrap();
        assert_eq!(&followed.body, listed);
    }
    assert_eq!(
        begin_synced_response("main/binary-amd64/Packages", None),
        Ok(SyncedStep::Missing)
    );
    assert_eq!(follow_synced_reference("Packages", None), Ok(None));
}

#[test]
fn stored_texts_hold_the_packages_of_the_plan() {
    let (plan, packages) = one_package_plan();
    assert_eq!(plan.package_files.len(), 1);
    assert!(plan.package_files[0].download);
    let generated = build_synced_generated_metadata(
        &plan,
        &packages,
        &TextMap::new(),
        &[],
        &TextMap::new(),
    )
    .unwrap();
    let text = generated
        .plain_indexes
        .get("main/binary-amd64/Packages")
        .unwrap();
    assert_eq!(parse_packages(text).unwrap()[0], entry("nginx", "amd64"));
}

#[test]
fn aliases_are_added_once() {
    let mut files = vec![("Packages".to_string(), b"x".to_vec())];
    append_by_hash_release_files(&mut files);
    assert_eq!(files.len(), 2);
    let alias = format!("by-hash/SHA256/{}", calculate_sha256_hex(b"x"));
    assert_eq!(find_release_file(&files, &alias).unwrap().body, b"x");
    append_by_hash_release_files(&mut files);
    assert_eq!(files.len(), 2);
    assert_eq!(find_release_file(&files, "Release"), None);
}

#[test]
fn selected_indexes_are_advertised_and_the_best_of_their_kind() {
    let release = parse_release("Suite: jammy\nDate: d\nArchitectures: amd64 arm64\nComponents: main\nSHA256:\n a 1 main/binary-arm64/Packages\n b 1 main/binary-amd64/Packages.gz\n c 1 main/binary-amd64/Packages.xz\n").unwrap();
    let indexes = filter_release_package_indexes(&release, &DebianSyncFilter::default());
    let paths: Vec<&str> = indexes.iter().map(|i| i.path.as_str()).collect();
    assert_eq!(
        paths,
        vec!["main/binary-amd64/Packages.xz", "main/binary-arm64/Packages"]
    );
    assert!(package_matches_sync_index("all", "arm64", &[]));

    let release = parse_release("Suite: jammy\nDate: d\nArchitectures: amd64\nComponents: main contrib\nSHA256:\n a 1 main/source/Sources.gz\n b 1 contrib/source/Sources\n c 1 main/source/Sources.xz\n").unwrap();
    let filter = DebianSyncFilter {
        components: vec!["main".to_string()],
        include_source_packages: true,
        ..DebianSyncFilter::default()
    };
    let sources = filter_release_source_indexes(&release, &filter);
    assert_eq!(sources.len(), 1);
    assert_eq!(sources[0].path, "main/source/Sources.xz");
}

#[test]
fn cache_gives_back_what_was_signed_until_it_is_invalidated() {
    let mut cache = SignedReleaseCache::new();
    let key = match begin_signed_release(
        &cache,
        SignedReleaseVariant::InRelease,
        "Suite: jammy\n",
        Some("ABCD"),
    ) {
        SignStep::Sign(key) => key,
        SignStep::Serve(_) => panic!("nothing was signed yet"),
    };
    let reply = finish_signed_release(
        &mut cache,
        2,
        "repo",
        "jammy",
        &key,
        SignedReleaseVariant::InRelease,
        Ok(b"signed".to_vec()),
    )
    .unwrap();
    assert_eq!(reply.body, b"signed");
    assert_eq!(reply.content_type, "text/plain; charset=utf-8");
    assert!(matches!(
        begin_signed_release(&cache, SignedReleaseVariant::InRelease, "Suite: jammy\n", Some("ABCD")),
        SignStep::Serve(file) if file.body == b"signed"
    ));
    // Another key signs anew.
    assert!(matches!(
        begin_signed_release(&cache, SignedReleaseVariant::InRelease, "Suite: jammy\n", None),
        SignStep::Sign(_)
    ));

    // A full cache is emptied before it takes more.
    cache.put(2, "repo", "noble", "k2", vec![2]);
    assert_eq!(cache.len(), 2);
    cache.put(2, "repo", "noble", "k3", vec![3]);
    assert_eq!(cache.len(), 1);
    assert_eq!(cache.get("k3"), Some(&vec![3]));
    assert_eq!(cache.get(&key), None);

    cache.put(2, "repo", "jammy", "k4", vec![4]);
    cache.invalidate("repo", "noble");
    assert_eq!(cache.get("k3"), None);
    assert_eq!(cache.get("k4"), Some(&vec![4]));

    let refusal = finish_signed_release(
        &mut cache,
        2,
        "repo",
        "jammy",
        "k5",
        SignedReleaseVariant::ReleaseGpg,
        Err("no key".to_string()),
    )
    .unwrap_err();
    assert_eq!(refusal.status, 500);
    assert_eq!(refusal.message, "Failed to sign Release.gpg: no key");
    assert_eq!(cache.get("k5"), None);
}

fn refusal(status: u16) -> Refusal {
    Refusal {
        status,
        message: "upstream".to_string(),
    }
}

#[test]
fn first_file_answers_and_the_first_failure_surfaces() {
    let members = vec![
        Member {
            key: "local".to_string(),
            repo_type: RepositoryType::Local,
            upstream_url: None,
        },
        Member {
            key: "mirror".to_string(),
            repo_type: RepositoryType::Remote,
            upstream_url: Some("https://deb.debian.org".to_string()),
        },
    ];
    assert_eq!(next_remote_member(&members, 0), Some(1));
    assert_eq!(next_remote_member(&members, 2), None);

    let mut walk = MemberWalk::new();
    for status in [404, 503, 502] {
        walk = match walk.took(Err(refusal(status)), "text/plain") {
            WalkStep::GoOn(next) => next,
            WalkStep::Found(_) => panic!("no file was answered"),
        };
    }
    assert!(matches!(
        walk.took(Ok((b"x".to_vec(), None)), "text/plain"),
        WalkStep::Found(reply) if reply.body == b"x" && reply.content_type == "text/plain"
    ));

    let mut walk = MemberWalk::new();
    for status in [404, 503, 502] {
        walk = match walk.took(Err(refusal(status)), "text/plain") {
            WalkStep::GoOn(next) => next,
            WalkStep::Found(_) => panic!("no file was answered"),
        };
    }
    assert_eq!(walk.finish(), Err(refusal(503)));
}

#[test]
fn verified_mirror_serves_no_package_without_a_digest() {
    let config = DebianRepositoryConfig {
        verify_upstream_metadata: true,
        ..Default::default()
    };
    let request = |generation_active, expected_sha256: Option<&str>| RemotePackage {
        has_proxy: true,
        config: Some(&config),
        allowed: true,
        path_check: Ok(()),
        generation_active,
        expected_sha256: expected_sha256.map(str::to_string),
    };
    assert_eq!(
        decide_package_fetch(request(false, None)).unwrap_err().status,
        502
    );
    assert_eq!(
        decide_package_fetch(request(false, Some("abc"))),
        Ok(PackageFetch::Cached(Some("abc".to_string())))
    );
    let open = DebianRepositoryConfig::default();
    let refusal = decide_package_fetch(RemotePackage {
        config: Some(&open),
        ..request(true, None)
    })
    .unwrap_err();
    assert_eq!(refusal.status, 502);
}

#[test]
fn published_generation_is_closed() {
    let flat = DebianRepositoryConfig {
        distributions: vec!["/stable/".to_string()],
        flat_repository: true,
        ..Default::default()
    };
    assert_eq!(
        generation_candidates(Some(&flat)),
        vec!["stable".to_string(), String::new()]
    );
    assert!(generation_candidates(None).is_empty());
    assert_eq!(
        decide_dists_action(true, RepositoryType::Remote, true, true)
            .unwrap_err()
            .status,
        404
    );
}

fn mirror(distributions: &[&str]) -> DebianRepositoryConfig {
    DebianRepositoryConfig {
        distributions: distributions.iter().map(|s| s.to_string()).collect(),
        package_fetch_strategy:
            debian_repo::config::DebianPackageFetchStrategy::PrefetchSelected,
        ..Default::default()
    }
}

const INDEX: &str = "Package: nginx\nVersion: 1\nArchitecture: amd64\nFilename: pool/n.deb\n";
const RELEASE: &str =
    "Suite: jammy\nDate: d\nArchitectures: amd64\nComponents: main\nSHA256:\n x 69 main/binary-amd64/Packages\n";

#[test]
fn sync_fetches_a_shared_file_once() {
    let release = format!(
        "Suite: a\nCodename: b\nDate: d\nArchitectures: amd64\nComponents: main\nSHA256:\n {} {} main/binary-amd64/Packages\n",
        calculate_sha256_hex(INDEX.as_bytes()),
        INDEX.len(),
    );
    let mut run = SyncRun::begin(RepositoryType::Remote, Some(mirror(&["a", "b"])), true, true)
        .unwrap();
    let mut paths = Vec::new();
    loop {
        let event = match run.action() {
            SyncAction::Fetch(path) if path.ends_with("/Release") => {
                SyncEvent::Fetched(release.clone().into_bytes())
            }
            SyncAction::Fetch(path) if path.ends_with("/Packages") => {
                SyncEvent::Fetched(INDEX.as_bytes().to_vec())
            }
            SyncAction::Fetch(_) => SyncEvent::Failed(refusal(404)),
            SyncAction::PrefetchPackage(path, digest) => {
                assert_eq!(digest, None);
                paths.push(path.to_string());
                SyncEvent::Accepted
            }
            SyncAction::Finish => break,
            _ => SyncEvent::Accepted,
        };
        run = run.step(event).unwrap();
    }
    assert_eq!(paths, vec!["pool/n.deb".to_string()]);
    let response = run.finish("mirror".to_string());
    assert_eq!(response.plans.len(), 2);
    // Each distribution has its plan, in turn, and each plan lists the file.
    for (plan, distribution) in response.plans.iter().zip(["a", "b"]) {
        assert_eq!(plan.distribution, distribution);
        assert_eq!(plan.package_files.len(), 1);
        assert!(plan.package_files[0].download);
    }
    assert_eq!(response.prefetched_packages, 1);
    assert_eq!(response.prefetched_sources, 0);
}

/// Runs a sync of two distributions that publishes into a store, up to the `n`th
/// publication, which fails.
fn publish_until(n: usize, store: &mut BTreeMap<String, String>) -> Option<Refusal> {
    let release = format!(
        "Suite: a\nCodename: b\nDate: d\nArchitectures: amd64\nComponents: main\nSHA256:\n {} {} main/binary-amd64/Packages\n",
        calculate_sha256_hex(INDEX.as_bytes()),
        INDEX.len(),
    );
    let config = DebianRepositoryConfig {
        generated_metadata_enabled: true,
        ..mirror(&["a", "/b/"])
    };
    let mut run = SyncRun::begin(RepositoryType::Remote, Some(config), true, true).unwrap();
    let mut published = 0;
    loop {
        let event = match run.action() {
            SyncAction::Fetch(path) if path.ends_with("/Release") => {
                SyncEvent::Fetched(release.clone().into_bytes())
            }
            SyncAction::Fetch(path) if path.ends_with("/Packages") => {
                SyncEvent::Fetched(INDEX.as_bytes().to_vec())
            }
            SyncAction::Fetch(_) => SyncEvent::Failed(refusal(404)),
            SyncAction::BuildContents(_) => SyncEvent::Contents(TextMap::new()),
            SyncAction::DigestFiles(files) => SyncEvent::Digests(
                files
                    .iter()
                    .map(|_| ("md5".to_string(), "sha1".to_string()))
                    .collect(),
            ),
            SyncAction::Publish(publication) => {
                published += 1;
                if published == n {
                    SyncEvent::Failed(refusal(500))
                } else {
                    store.retain(|key, _| !key.starts_with(&publication.cleared_prefix));
                    for (key, value) in &publication.rows {
                        store.insert(key.clone(), value.clone());
                    }
                    SyncEvent::Accepted
                }
            }
            SyncAction::Finish => {
                assert_eq!(published, 2);
                return None;
            }
            _ => SyncEvent::Accepted,
        };
        run = match run.step(event) {
            Ok(next) => next,
            Err(refusal) => return Some(refusal),
        };
    }
}

#[test]
fn readers_see_whole_generations() {
    let old = |d: &str| {
        vec![
            (synced_dists_config_key(d, "old/Packages"), "old".to_string()),
            (synced_release_config_key(d), "old release".to_string()),
        ]
    };
    let seen = |store: &BTreeMap<String, String>, d: &str| -> Vec<(String, String)> {
        store
            .iter()
            .filter(|(key, _)| {
                key.starts_with(&synced_dists_key_prefix(d)) || **key == synced_release_config_key(d)
            })
            .map(|(key, value)| (key.clone(), value.clone()))
            .collect()
    };
    for failing in [1, 2, 3] {
        let mut store: BTreeMap<String, String> = old("a").into_iter().chain(old("b")).collect();
        let outcome = publish_until(failing, &mut store);
        assert_eq!(outcome.is_none(), failing == 3);
        for (turn, d) in [(1, "a"), (2, "b")] {
            let rows = seen(&store, d);
            if turn < failing {
                // Packages and Contents, each with the hashes of its three forms, and
                // the Release that lists them, all new.
                assert_eq!(rows.len(), 9);
                assert!(rows.iter().all(|(_, value)| !value.starts_with("old")));
                let release = parse_release(&store[&synced_release_config_key(d)]).unwrap();
                let packages = &store[&synced_dists_config_key(d, "main/binary-amd64/Packages")];
                assert_eq!(
                    verify_index_against_release(
                        &release,
                        "main/binary-amd64/Packages",
                        packages.as_bytes(),
                        true
                    ),
                    Ok(())
                );
            } else {
                assert_eq!(rows, old(d));
            }
        }
    }
}

/// Runs a sync whose Release and signed Release are fetched, up to the first
/// action that `stop` takes, and gives the outcome of its answer.
fn sync_until(
    config: DebianRepositoryConfig,
    stop: impl Fn(&SyncAction<'_>) -> Option<SyncEvent>,
) -> Result<(), Refusal> {
    let mut run = SyncRun::begin(RepositoryType::Remote, Some(config), true, true)?;
    loop {
        let action = run.action();
        if let Some(event) = stop(&action) {
            return run.step(event).map(|_| ());
        }
        let event = match action {
            SyncAction::Fetch(_) => SyncEvent::Fetched(RELEASE.as_bytes().to_vec()),
            SyncAction::LookUpKey(_) => SyncEvent::Key(Some("key".to_string())),
            SyncAction::VerifyCleartext(_, _) => SyncEvent::Payload(RELEASE.to_string()),
            SyncAction::Finish => return Ok(()),
            _ => SyncEvent::Accepted,
        };
        run = run.step(event)?;
    }
}

#[test]
fn sync_refuses_what_it_cannot_begin() {
    let begin = |repo_type, config, upstream, proxy| {
        let refusal = SyncRun::begin(repo_type, config, upstream, proxy).unwrap_err();
        (refusal.status, refusal.message)
    };
    let config = || Some(mirror(&["jammy"]));
    assert_eq!(
        begin(RepositoryType::Local, config(), true, true),
        (
            400,
            "Debian metadata refresh requires a Remote repository".to_string()
        )
    );
    assert_eq!(
        begin(RepositoryType::Remote, None, true, true).1,
        "Debian repository has no advanced configuration"
    );
    assert_eq!(
        begin(RepositoryType::Remote, config(), false, true).1,
        "Debian metadata refresh requires repository upstream_url"
    );
    assert_eq!(
        begin(RepositoryType::Remote, config(), true, false),
        (503, "Proxy service is not configured".to_string())
    );
    assert_eq!(
        begin(RepositoryType::Remote, Some(mirror(&[])), true, true).1,
        "Debian metadata refresh requires at least one distribution path"
    );
}

#[test]
fn sync_ends_where_upstream_cannot_be_trusted() {
    let verified = || DebianRepositoryConfig {
        verify_upstream_metadata: true,
        upstream_gpg_key_id: Some(" ABCD ".to_string()),
        ..mirror(&["jammy"])
    };
    let is_fetch = |action: &SyncAction<'_>, name: &str| matches!(action, SyncAction::Fetch(path) if path == name);

    let no_key = DebianRepositoryConfig {
        upstream_gpg_key_id: Some("  ".to_string()),
        ..verified()
    };
    assert_eq!(
        sync_until(no_key, |_| None).unwrap_err().message,
        "verify_upstream_metadata=true requires upstream_gpg_key_id."
    );
    let refusal404 = || SyncEvent::Failed(refusal(404));
    let unknown = sync_until(verified(), |action| match action {
        SyncAction::LookUpKey(key) => {
            assert_eq!(*key, "ABCD");
            Some(SyncEvent::Key(None))
        }
        _ => None,
    })
    .unwrap_err();
    assert_eq!(
        (unknown.status, unknown.message.as_str()),
        (
            400,
            "upstream_gpg_key_id=ABCD did not match a stored active public key."
        )
    );
    let lookup = sync_until(verified(), |action| match action {
        SyncAction::LookUpKey(_) => Some(SyncEvent::Rejected("db".to_string())),
        _ => None,
    })
    .unwrap_err();
    assert_eq!(
        lookup.message,
        "Failed to verify upstream Debian public key lookup: db"
    );
    let forged = sync_until(verified(), |action| match action {
        SyncAction::VerifyCleartext(key, _) => {
            assert_eq!(*key, "key");
            Some(SyncEvent::Rejected("bad signature".to_string()))
        }
        _ => None,
    })
    .unwrap_err();
    assert_eq!(
        (forged.status, forged.message.as_str()),
        (
            502,
            "Failed to verify upstream Debian InRelease: bad signature"
        )
    );
    let unreadable = sync_until(verified(), |action| {
        is_fetch(action, "dists/jammy/Release").then_some(SyncEvent::Fetched(vec![0xff]))
    })
    .unwrap_err();
    assert!(unreadable
        .message
        .starts_with("Failed to parse upstream Debian Release: "));
    let failed = sync_until(verified(), |action| {
        is_fetch(action, "dists/jammy/InRelease").then_some(SyncEvent::Failed(refusal(500)))
    })
    .unwrap_err();
    assert_eq!(failed, refusal(500));
    let ends = sync_until(mirror(&["jammy"]), |action| {
        is_fetch(action, "dists/jammy/main/binary-amd64/Packages").then(refusal404)
    })
    .unwrap_err();
    assert_eq!(ends.status, 404);
    let goes_on = DebianRepositoryConfig {
        ignore_missing_indexes: true,
        ..mirror(&["jammy"])
    };
    assert_eq!(
        sync_until(goes_on, |action| {
            is_fetch(action, "dists/jammy/main/binary-amd64/Packages").then(refusal404)
        }),
        Ok(())
    );
    let other = sync_until(mirror(&["jammy"]), |action| match action {
        SyncAction::Fetch(_) => Some(SyncEvent::Accepted),
        _ => None,
    })
    .unwrap_err();
    assert_eq!(other.status, 500);
}

#[test]
fn sync_accepts_a_detached_signature() {
    let config = DebianRepositoryConfig {
        verify_upstream_metadata: true,
        upstream_gpg_key_id: Some("ABCD".to_string()),
        ..mirror(&["jammy"])
    };
    let mut run = SyncRun::begin(RepositoryType::Remote, Some(config), true, true).unwrap();
    let mut verified = false;
    loop {
        let event = match run.action() {
            SyncAction::Fetch(path) if path == "dists/jammy/Release" => {
                SyncEvent::Fetched(RELEASE.as_bytes().to_vec())
            }
            SyncAction::Fetch(path) if path == "dists/jammy/InRelease" => {
                SyncEvent::Failed(refusal(404))
            }
            SyncAction::Fetch(path) if path == "dists/jammy/Release.gpg" => {
                SyncEvent::Fetched(b"sig".to_vec())
            }
            SyncAction::LookUpKey(_) => SyncEvent::Key(Some("key".to_string())),
            SyncAction::VerifyDetached(key, file, signature) => {
                assert_eq!(key, "key");
                assert_eq!(file.as_slice(), RELEASE.as_bytes());
                assert_eq!(signature.as_slice(), b"sig");
                verified = true;
                SyncEvent::Accepted
            }
            SyncAction::Fetch(path) => {
                assert_eq!(path, "dists/jammy/main/binary-amd64/Packages");
                break;
            }
            other => panic!("not yet: {other:?}"),
        };
        run = run.step(event).unwrap();
    }
    assert!(verified);
}

#[test]
fn raw_upload_without_a_name_is_refused() {
    let refusal = prepare_raw_upload(&UploadHeaders::new(), b"").unwrap_err();
    assert_eq!(refusal.status, 400);
    assert_eq!(
        refusal.message,
        "Missing filename. Provide X-Filename header or Content-Disposition with filename"
    );
}

#[test]
fn bad_copies_are_not_served() {
    for cache_stale in [false, true] {
        let action = |upstream_success: bool, checksum_matches: bool| {
            decide_debian_cache_action(DebianCacheDecisionInput {
                path: "pool/main/n/nginx.deb",
                upstream_success,
                cached_locally: true,
                cache_stale,
                checksum_matches,
            })
        };
        assert_eq!(action(true, true), DebianCacheAction::ServeCached);
        assert_eq!(action(true, false), DebianCacheAction::FetchAndCache);
        assert_eq!(action(false, true), DebianCacheAction::DoNotCache);
    }
}

#[test]
fn only_a_copy_that_can_change_and_did_is_stale() {
    assert!(is_stale_copy(false, true, true));
    assert!(!is_stale_copy(true, true, true));
    assert!(!is_stale_copy(false, false, true));
    assert!(!is_stale_copy(false, true, false));
}

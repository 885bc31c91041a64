//! Requests, hosted and generated indexes, uploads and syncs.

use std::io::Read;

use debian_repo::config::{DebianPackageFetchStrategy, DebianRepositoryConfig};
use debian_repo::control::DebControl;
use debian_repo::digest::{calculate_sha256_hex, calculate_sha512_hex};
use debian_repo::dists::{
    content_type_for_dists_path, debian_dists_upstream_path, gzip_compress, packages_index_suffix,
    parse_contents_request, parse_packages_request, strip_binary_arch_prefix,
    synced_dists_key_prefix, xz_compress, PackagesExt,
};
use debian_repo::error::AppError;
use debian_repo::generated::{
    build_generated_packages_text, build_generated_sources_text, build_synced_generated_metadata,
};
use debian_repo::hosted::{
    append_by_hash_release_files, architecture_for_release_layout, build_packages_text,
    build_packages_xz, build_release_content_from_files, by_hash_path, component_from_pool_path,
    discover_release_layout, effective_release_layout, package_matches_requested_arch,
    package_matches_requested_distribution, parse_deb_filename, push_hosted_indexes,
    select_package_entries,
    ArtifactMetadata, ArtifactRow, DigestedFile, PackageEntry,
};
use debian_repo::http::{build_dists_response, map_proxy_err, proxy_err_status_and_message, Refusal};
use debian_repo::index::{PackagesEntry, SourceFileEntry, SourcesEntry};
use debian_repo::members::{remote_member_upstream, Member, MemberWalk, RepositoryType, WalkStep};
use debian_repo::ordered::{TextMap, TextSet};
use debian_repo::plan::DebianSyncPlan;
use debian_repo::release::{parse_release, Release};
use debian_repo::select::{DebianIndexPath, DebianSourceIndexPath};
use debian_repo::serve::{
    check_flat_download, debian_sync_filter_for_path_check, decide_catchall_action, decide_dists_action, decide_flat_download,
    decide_package_fetch, DistsAction, DownloadAction, PackageFetch, RemotePackage,
};
use debian_repo::signed::{signed_release_cache_key, SignedReleaseVariant};
use debian_repo::sync::{SyncAction, SyncEvent, SyncRun};
use debian_repo::upload::{
    build_debian_artifact_metadata, build_debian_package_catalog_metadata,
    debian_upload_architecture, debian_upload_component, debian_upload_distribution,
    package_description, prepare_pool_upload, should_enqueue_debian_sync_tasks,
    validate_debian_component_header, UploadHeaders,
};
use debian_repo::verify::{
    expected_prefetch_digest, package_sha256_by_filename, release_index_digest,
    sha256_for_filename_in_packages_text, source_sha256_by_filename, verify_index_against_release,
};

fn test_member(repo_type: RepositoryType, upstream: Option<&str>) -> Member {
    Member {
        key: "m".to_string(),
        repo_type,
        upstream_url: upstream.map(|s| s.to_string()),
    }
}

fn stored_metadata() -> ArtifactMetadata {
    ArtifactMetadata {
        control: None,
        package: None,
        name: None,
        version: None,
        architecture: None,
        description: None,
        maintainer: None,
        section: None,
        priority: None,
        homepage: None,
        source: None,
        component: None,
        distribution: None,
    }
}

fn with_distribution(distribution: &str) -> ArtifactMetadata {
    ArtifactMetadata {
        distribution: Some(distribution.to_string()),
        ..stored_metadata()
    }
}

fn text_set(items: &[&str]) -> TextSet {
    let mut set = TextSet::new();
    for item in items {
        set.insert(item.to_string());
    }
    set
}

fn headers_with_replication(value: &str) -> UploadHeaders {
    let mut headers = UploadHeaders::new();
    headers.insert("x-artifact-keeper-replication", value.as_bytes());
    headers
}

fn append_ar_member(out: &mut Vec<u8>, name: &str, content: &[u8]) {
    let header = format!(
        "{:<16}{:<12}{:<6}{:<6}{:<8}{:<10}`\n",
        name,
        0,
        0,
        0,
        "100644",
        content.len()
    );
    assert_eq!(header.len(), 60, "ar header must be exactly 60 bytes");
    out.extend_from_slice(header.as_bytes());
    out.extend_from_slice(content);
    if content.len() % 2 == 1 {
        out.push(b'\n');
    }
}

fn control_tar_gz(control: &str) -> Vec<u8> {
    let mut builder = tar::Builder::new(Vec::new());
    let mut header = tar::Header::new_gnu();
    header.set_size(control.len() as u64);
    header.set_mode(0o644);
    header.set_cksum();
    builder
        .append_data(&mut header, "./control", control.as_bytes())
        .expect("append control file");
    builder.finish().expect("finish control.tar");
    let tar_bytes = builder.into_inner().expect("control.tar bytes");
    gzip_compress(&tar_bytes).expect("gzip control.tar")
}

fn empty_data_tar_gz() -> Vec<u8> {
    let mut builder = tar::Builder::new(Vec::new());
    builder.finish().expect("finish data.tar");
    let tar_bytes = builder.into_inner().expect("data.tar bytes");
    gzip_compress(&tar_bytes).expect("gzip data.tar")
}

fn minimal_deb(package: &str, version: &str, architecture: &str, description: &str) -> Vec<u8> {
    let control = format!(
        "Package: {package}\n\
         Version: {version}\n\
         Architecture: {architecture}\n\
         Maintainer: Test Maintainer <test@example.local>\n\
         Installed-Size: 7\n\
         Depends: libc6 (>= 2.36)\n\
         Section: utils\n\
         Priority: optional\n\
         Homepage: https://example.local/{package}\n\
         Description: {description}\n\
         {description_continuation}",
        description_continuation = " extended description line\n",
    );

    let mut deb = Vec::new();
    deb.extend_from_slice(b"!<arch>\n");
    append_ar_member(&mut deb, "debian-binary", b"2.0\n");
    append_ar_member(&mut deb, "control.tar.gz", &control_tar_gz(&control));
    append_ar_member(&mut deb, "data.tar.gz", &empty_data_tar_gz());
    deb
}

fn release_with_index(index_path: &str, content: &[u8]) -> Release {
    let text = format!(
        "Suite: jammy\nCodename: jammy\nDate: Tue, 07 Jul 2026 12:00:00 UTC\nArchitectures: amd64\nComponents: main\nSHA256:\n {} {} {}\n",
        calculate_sha256_hex(content),
        content.len(),
        index_path,
    );
    parse_release(&text).expect("release parses")
}

fn package_entry(
    name: &str,
    version: &str,
    arch: &str,
    filename: &str,
    size: i64,
    sha256: &str,
    description: &str,
) -> PackageEntry {
    PackageEntry {
        control: DebControl {
            package: name.to_string(),
            version: version.to_string(),
            architecture: arch.to_string(),
            description: Some(description.to_string()),
            ..DebControl::default()
        },
        filename: filename.to_string(),
        size,
        sha256: sha256.to_string(),
        sha1: None,
        md5: None,
    }
}

#[test]
fn test_sha256_for_filename_in_packages_text() {
    let text = "\
Package: nginx
Version: 1.0
Architecture: amd64
Filename: pool/main/n/nginx/nginx_1.0_amd64.deb
SHA256: AbCdEf1234567890

Package: curl
Version: 2.0
Architecture: amd64
Filename: pool/main/c/curl/curl_2.0_amd64.deb
SHA256: deadbeef
";
    assert_eq!(
        sha256_for_filename_in_packages_text(
            text,
            "pool/main/n/nginx/nginx_1.0_amd64.deb"
        )
        .as_deref(),
        Some("abcdef1234567890")
    );
    assert_eq!(
        sha256_for_filename_in_packages_text(text, "nginx_1.0_amd64.deb").as_deref(),
        Some("abcdef1234567890")
    );
    assert_eq!(
        sha256_for_filename_in_packages_text(text, "pool/main/missing.deb"),
        None
    );
}

#[test]
fn test_verify_index_against_release_accepts_matching_bytes() {
    let content = b"Package: nginx\n";
    let release = release_with_index("main/binary-amd64/Packages", content);
    assert!(verify_index_against_release(
        &release,
        "main/binary-amd64/Packages",
        content,
        true
    )
    .is_ok());
}

#[test]
fn test_verify_index_against_release_rejects_size_mismatch() {
    let content = b"Package: nginx\n";
    let release = release_with_index("main/binary-amd64/Packages", content);
    let tampered = b"Package: nginx\nextra";
    let err =
        verify_index_against_release(&release, "main/binary-amd64/Packages", tampered, true)
            .unwrap_err();
    assert!(err.contains("size"), "unexpected error: {err}");
}

#[test]
fn test_verify_index_against_release_rejects_hash_mismatch() {
    let content = b"Package: nginx\n";
    let release = release_with_index("main/binary-amd64/Packages", content);
    // Same length, different bytes -> size matches but checksum does not.
    let tampered = b"Package: redis\n";
    assert_eq!(content.len(), tampered.len());
    let err =
        verify_index_against_release(&release, "main/binary-amd64/Packages", tampered, true)
            .unwrap_err();
    assert!(err.contains("checksum"), "unexpected error: {err}");
}

#[test]
fn test_verify_index_against_release_missing_entry_fails_closed_when_required() {
    let content = b"Package: nginx\n";
    let release = release_with_index("main/binary-amd64/Packages", content);
    // A path with no Release entry is rejected only when verification is required.
    assert!(verify_index_against_release(
        &release,
        "main/binary-arm64/Packages",
        content,
        true
    )
    .is_err());
    assert!(verify_index_against_release(
        &release,
        "main/binary-arm64/Packages",
        content,
        false
    )
    .is_ok());
}

#[test]
fn test_release_index_digest_prefers_sha512() {
    let content = b"Packages body\n";
    let text = format!(
        "Suite: jammy\nDate: Tue, 07 Jul 2026 12:00:00 UTC\nArchitectures: amd64\nComponents: main\nSHA256:\n deadbeef {} main/binary-amd64/Packages\nSHA512:\n {} {} main/binary-amd64/Packages\n",
        content.len(),
        calculate_sha512_hex(content),
        content.len(),
    );
    let release = parse_release(&text).unwrap();
    let (is_sha512, _, _) =
        release_index_digest(&release, "main/binary-amd64/Packages").expect("digest present");
    assert!(is_sha512, "must prefer the stronger SHA512 digest");
    // And verification succeeds against the (correct) SHA512 even though the
    // SHA256 entry is bogus.
    assert!(verify_index_against_release(
        &release,
        "main/binary-amd64/Packages",
        content,
        true
    )
    .is_ok());
}

#[test]
fn test_package_and_source_digest_maps() {
    let mut packages: TextMap<Vec<PackagesEntry>> = TextMap::new();
    packages.insert(
        "main/binary-amd64/Packages".to_string(),
        vec![PackagesEntry {
            control: DebControl {
                package: "nginx".to_string(),
                version: "1.0".to_string(),
                architecture: "amd64".to_string(),
                ..DebControl::default()
            },
            filename: Some("pool/main/n/nginx/nginx_1.0_amd64.deb".to_string()),
            size: Some(10),
            md5sum: None,
            sha1: None,
            sha256: Some("ABCDEF".to_string()),
        }],
    );
    let pkg_map = package_sha256_by_filename(&packages);
    assert_eq!(
        pkg_map.get("pool/main/n/nginx/nginx_1.0_amd64.deb"),
        Some(&"abcdef".to_string()),
        "digest must be normalized to lowercase and keyed by Filename"
    );

    let mut sources: TextMap<Vec<SourcesEntry>> = TextMap::new();
    sources.insert(
        "main/source/Sources".to_string(),
        vec![SourcesEntry {
            package: "nginx".to_string(),
            version: "1.0".to_string(),
            directory: "pool/main/n/nginx".to_string(),
            files: vec![SourceFileEntry {
                filename: "nginx_1.0.dsc".to_string(),
                size: 20,
                md5sum: None,
                sha1: None,
                sha256: Some("FEEDBEEF".to_string()),
                sha512: None,
            }],
            extra: TextMap::new(),
        }],
    );
    let src_map = source_sha256_by_filename(&sources);
    assert_eq!(
        src_map.get("pool/main/n/nginx/nginx_1.0.dsc"),
        Some(&"feedbeef".to_string()),
        "source digest must be keyed by full directory/filename path"
    );
}

#[test]
fn test_expected_prefetch_digest_semantics() {
    let mut digests: TextMap<String> = TextMap::new();
    digests.insert("pool/main/a.deb".to_string(), "abc123".to_string());

    assert_eq!(
        expected_prefetch_digest(&digests, "pool/main/a.deb", true).unwrap(),
        Some("abc123".to_string())
    );
    // Missing digest is fatal only when verification is required.
    assert!(expected_prefetch_digest(&digests, "pool/main/missing.deb", true).is_err());
    assert_eq!(
        expected_prefetch_digest(&digests, "pool/main/missing.deb", false).unwrap(),
        None
    );
}

#[test]
fn test_proxy_err_status_not_found_maps_to_404() {
    let err = AppError::NotFound("missing".to_string());
    let (status, msg) = proxy_err_status_and_message(&err);
    assert_eq!(status, 404);
    assert_eq!(msg, "missing");
}

#[test]
fn test_proxy_err_status_storage_maps_to_502() {
    let err = AppError::Storage("io error".to_string());
    let (status, msg) = proxy_err_status_and_message(&err);
    assert_eq!(status, 502);
    assert!(msg.starts_with("Upstream fetch failed"));
}

#[test]
fn test_proxy_err_status_validation_maps_to_502() {
    let err = AppError::Validation("invalid path".to_string());
    let (status, _msg) = proxy_err_status_and_message(&err);
    assert_eq!(status, 502);
}

#[test]
fn test_proxy_err_status_internal_maps_to_502() {
    let err = AppError::Internal("boom".to_string());
    let (status, _msg) = proxy_err_status_and_message(&err);
    assert_eq!(status, 502);
}

#[test]
fn test_map_proxy_err_not_found_produces_404_response() {
    let resp = map_proxy_err(AppError::NotFound("missing".to_string()));
    assert_eq!(resp.status, 404);
}

#[test]
fn test_map_proxy_err_other_errors_produce_502_response() {
    let resp = map_proxy_err(AppError::Storage("io".to_string()));
    assert_eq!(resp.status, 502);

    let resp = map_proxy_err(AppError::Validation("v".to_string()));
    assert_eq!(resp.status, 502);

    let resp = map_proxy_err(AppError::Internal("i".to_string()));
    assert_eq!(resp.status, 502);
}

#[test]
fn test_remote_member_upstream_skips_local_member() {
    let m = test_member(RepositoryType::Local, Some("https://upstream.test"));
    assert!(
        remote_member_upstream(&m).is_none(),
        "Local members never get proxied for dists"
    );
}

#[test]
fn test_remote_member_upstream_skips_staging_member() {
    let m = test_member(RepositoryType::Staging, Some("https://upstream.test"));
    assert!(remote_member_upstream(&m).is_none());
}

#[test]
fn test_remote_member_upstream_skips_remote_without_url() {
    let m = test_member(RepositoryType::Remote, None);
    assert!(
        remote_member_upstream(&m).is_none(),
        "A Remote member with no upstream_url is a misconfiguration; \
         skip rather than panic."
    );
}

#[test]
fn test_remote_member_upstream_returns_url_for_valid_remote() {
    let m = test_member(RepositoryType::Remote, Some("https://deb.debian.org"));
    assert_eq!(remote_member_upstream(&m), Some("https://deb.debian.org"));
}

#[test]
fn test_parse_packages_request_plain() {
    let req = parse_packages_request("main/binary-amd64/Packages").unwrap();
    assert_eq!(req.component, "main");
    assert_eq!(req.binary_arch, "binary-amd64");
    assert!(matches!(req.ext, PackagesExt::Plain));
}

#[test]
fn test_parse_packages_request_gz() {
    let req = parse_packages_request("main/binary-amd64/Packages.gz").unwrap();
    assert!(matches!(req.ext, PackagesExt::Gz));
}

#[test]
fn test_parse_packages_request_xz() {
    let req = parse_packages_request("contrib/binary-arm64/Packages.xz").unwrap();
    assert_eq!(req.component, "contrib");
    assert_eq!(req.binary_arch, "binary-arm64");
    assert!(matches!(req.ext, PackagesExt::Xz));
}

#[test]
fn test_parse_packages_request_rejects_i18n() {
    assert!(parse_packages_request("main/i18n/Translation-en.xz").is_none());
}

#[test]
fn test_parse_packages_request_rejects_sources() {
    assert!(parse_packages_request("main/source/Sources.gz").is_none());
    assert!(parse_packages_request("main/binary-amd64/Contents-amd64.gz").is_none());
}

#[test]
fn test_parse_packages_request_rejects_wrong_depth() {
    assert!(parse_packages_request("main/binary-amd64").is_none());
    assert!(parse_packages_request("main/binary-amd64/extra/Packages").is_none());
}

#[test]
fn test_parse_deb_filename_valid() {
    let info = parse_deb_filename("nginx_1.24.0_amd64.deb").unwrap();
    assert_eq!(info.name, "nginx");
    assert_eq!(info.version, "1.24.0");
    assert_eq!(info.arch, "amd64");
    assert_eq!(info.package_type, "deb");
}

#[test]
fn test_parse_deb_filename_complex_version() {
    let info = parse_deb_filename("libssl_3.0.2-0ubuntu1.10_arm64.deb").unwrap();
    assert_eq!(info.name, "libssl");
    assert_eq!(info.version, "3.0.2-0ubuntu1.10");
    assert_eq!(info.arch, "arm64");
}

#[test]
fn test_parse_deb_filename_arch_all() {
    let info = parse_deb_filename("python3-pip_23.0_all.deb").unwrap();
    assert_eq!(info.name, "python3-pip");
    assert_eq!(info.version, "23.0");
    assert_eq!(info.arch, "all");
}

#[test]
fn test_parse_deb_filename_udeb() {
    let info = parse_deb_filename("base-installer_1.200_amd64.udeb").unwrap();
    assert_eq!(info.name, "base-installer");
    assert_eq!(info.version, "1.200");
    assert_eq!(info.arch, "amd64");
    assert_eq!(info.package_type, "udeb");
}

#[test]
fn test_parse_deb_filename_no_deb_extension() {
    assert!(parse_deb_filename("nginx_1.0_amd64.rpm").is_none());
}

#[test]
fn test_parse_deb_filename_too_few_parts() {
    assert!(parse_deb_filename("nginx_amd64.deb").is_none());
}

#[test]
fn test_parse_deb_filename_no_underscores() {
    assert!(parse_deb_filename("nginx.deb").is_none());
}

#[test]
fn test_parse_deb_filename_empty_string() {
    assert!(parse_deb_filename("").is_none());
}

#[test]
fn test_parse_deb_filename_just_extension() {
    assert!(parse_deb_filename(".deb").is_none());
}

#[test]
fn test_parse_deb_filename_version_with_underscores_in_arch() {
    let info = parse_deb_filename("pkg_1.0_i386.deb").unwrap();
    assert_eq!(info.name, "pkg");
    assert_eq!(info.version, "1.0");
    assert_eq!(info.arch, "i386");
}

#[test]
fn test_flat_debian_upstream_paths_are_root_relative() {
    assert_eq!(debian_dists_upstream_path("", "Release"), "Release");
    assert_eq!(debian_dists_upstream_path("", "Packages.xz"), "Packages.xz");
    assert_eq!(
        debian_dists_upstream_path("bookworm", "main/binary-amd64/Packages.xz"),
        "dists/bookworm/main/binary-amd64/Packages.xz"
    );
}

#[test]
fn test_build_packages_text_single_entry() {
    let entries = vec![package_entry(
        "nginx",
        "1.24.0",
        "amd64",
        "pool/main/n/nginx/nginx_1.24.0_amd64.deb",
        1024,
        "abc123",
        "HTTP server",
    )];
    let text = build_packages_text(&entries);
    assert!(text.contains("Package: nginx\n"));
    assert!(text.contains("Version: 1.24.0\n"));
    assert!(text.contains("Architecture: amd64\n"));
    assert!(text.contains("Filename: pool/main/n/nginx/nginx_1.24.0_amd64.deb\n"));
    assert!(text.contains("Size: 1024\n"));
    assert!(text.contains("SHA256: abc123\n"));
    assert!(text.contains("Description: HTTP server\n"));
}

#[test]
fn test_build_packages_text_multiple_entries() {
    let entries = vec![
        package_entry(
            "pkg1",
            "1.0",
            "amd64",
            "pool/main/p/pkg1/pkg1_1.0_amd64.deb",
            100,
            "hash1",
            "Package 1",
        ),
        package_entry(
            "pkg2",
            "2.0",
            "arm64",
            "pool/main/p/pkg2/pkg2_2.0_arm64.deb",
            200,
            "hash2",
            "Package 2",
        ),
    ];
    let text = build_packages_text(&entries);
    assert!(text.contains("Package: pkg1\n"));
    assert!(text.contains("Package: pkg2\n"));
    // Entries should be separated by a blank line
    assert!(text.contains("\n\n"));
}

#[test]
fn test_build_packages_text_empty() {
    let entries: Vec<PackageEntry> = vec![];
    let text = build_packages_text(&entries);
    assert!(text.is_empty());
}

#[test]
fn test_build_packages_text_preserves_debian_control_fields() {
    let mut extra: TextMap<String> = TextMap::new();
    extra.insert("Multi-Arch".to_string(), "same".to_string());
    let entries = vec![PackageEntry {
        control: DebControl {
            package: "libdemo".to_string(),
            version: "1.2.3-1".to_string(),
            architecture: "amd64".to_string(),
            maintainer: Some("Maintainer <m@example.test>".to_string()),
            installed_size: Some(42),
            depends: Some(vec!["libc6 (>= 2.36)".to_string(), "zlib1g".to_string()]),
            section: Some("libs".to_string()),
            priority: Some("optional".to_string()),
            homepage: Some("https://example.test/libdemo".to_string()),
            source: Some("demo-src".to_string()),
            description: Some("short description\nlong line\n.\nsecond paragraph".to_string()),
            extra,
            ..DebControl::default()
        },
        filename: "pool/main/libd/libdemo/libdemo_1.2.3-1_amd64.deb".to_string(),
        size: 4096,
        sha256: "sha256".to_string(),
        sha1: Some("sha1".to_string()),
        md5: Some("md5".to_string()),
    }];

    let text = build_packages_text(&entries);
    assert!(text.contains("Maintainer: Maintainer <m@example.test>\n"));
    assert!(text.contains("Installed-Size: 42\n"));
    assert!(text.contains("Depends: libc6 (>= 2.36), zlib1g\n"));
    assert!(text.contains("Section: libs\n"));
    assert!(text.contains("Priority: optional\n"));
    assert!(text.contains("Homepage: https://example.test/libdemo\n"));
    assert!(text.contains("Source: demo-src\n"));
    assert!(text.contains("Multi-Arch: same\n"));
    assert!(
        text.contains("Description: short description\n long line\n .\n second paragraph\n")
    );
    assert!(text.contains("MD5sum: md5\n"));
    assert!(text.contains("SHA1: sha1\n"));
    assert!(text.contains("SHA256: sha256\n"));
}

#[test]
fn test_build_generated_packages_text_filters_arch_and_preserves_hashes() {
    let mut extra: TextMap<String> = TextMap::new();
    extra.insert("Multi-Arch".to_string(), "same".to_string());
    let entries = vec![
        PackagesEntry {
            control: DebControl {
                package: "libdemo".to_string(),
                version: "1.0".to_string(),
                architecture: "amd64".to_string(),
                maintainer: Some("Maintainer <m@example.test>".to_string()),
                description: Some("demo library".to_string()),
                extra,
                ..DebControl::default()
            },
            filename: Some("pool/main/libd/libdemo/libdemo_1.0_amd64.deb".to_string()),
            size: Some(1234),
            md5sum: Some("md5".to_string()),
            sha1: Some("sha1".to_string()),
            sha256: Some("sha256".to_string()),
        },
        PackagesEntry {
            control: DebControl {
                package: "shared-data".to_string(),
                version: "1.0".to_string(),
                architecture: "all".to_string(),
                description: Some("shared data".to_string()),
                ..DebControl::default()
            },
            filename: Some("pool/main/s/shared-data/shared-data_1.0_all.deb".to_string()),
            size: Some(77),
            md5sum: None,
            sha1: None,
            sha256: Some("sha256-all".to_string()),
        },
        PackagesEntry {
            control: DebControl {
                package: "libother".to_string(),
                version: "1.0".to_string(),
                architecture: "arm64".to_string(),
                description: Some("other arch".to_string()),
                ..DebControl::default()
            },
            filename: Some("pool/main/libo/libother/libother_1.0_arm64.deb".to_string()),
            size: Some(99),
            md5sum: None,
            sha1: None,
            sha256: Some("sha256-arm".to_string()),
        },
    ];

    let text = build_generated_packages_text(&entries, "amd64", &["amd64".to_string()]);
    assert!(text.contains("Package: libdemo\n"));
    assert!(text.contains("Package: shared-data\n"));
    assert!(!text.contains("Package: libother\n"));
    assert!(text.contains("Multi-Arch: same\n"));
    assert!(text.contains("Filename: pool/main/libd/libdemo/libdemo_1.0_amd64.deb\n"));
    assert!(text.contains("Size: 1234\n"));
    assert!(text.contains("MD5sum: md5\n"));
    assert!(text.contains("SHA1: sha1\n"));
    assert!(text.contains("SHA256: sha256\n"));
}

#[test]
fn test_build_generated_packages_text_filters_flat_indexes_by_selected_architectures() {
    let entries = vec![
        PackagesEntry {
            control: DebControl {
                package: "libdemo".to_string(),
                version: "1.0".to_string(),
                architecture: "amd64".to_string(),
                description: Some("demo library".to_string()),
                ..DebControl::default()
            },
            filename: Some("libdemo_1.0_amd64.deb".to_string()),
            size: Some(1234),
            md5sum: None,
            sha1: None,
            sha256: Some("sha256".to_string()),
        },
        PackagesEntry {
            control: DebControl {
                package: "libother".to_string(),
                version: "1.0".to_string(),
                architecture: "arm64".to_string(),
                description: Some("other arch".to_string()),
                ..DebControl::default()
            },
            filename: Some("libother_1.0_arm64.deb".to_string()),
            size: Some(99),
            md5sum: None,
            sha1: None,
            sha256: Some("sha256-arm".to_string()),
        },
    ];

    let text = build_generated_packages_text(&entries, "", &["amd64".to_string()]);
    assert!(text.contains("Package: libdemo\n"));
    assert!(!text.contains("Package: libother\n"));
}

#[test]
fn test_build_generated_sources_text_preserves_hash_sections() {
    let mut extra: TextMap<String> = TextMap::new();
    extra.insert(
        "Maintainer".to_string(),
        "Maintainer <m@example.test>".to_string(),
    );
    let entries = vec![SourcesEntry {
        package: "demo-src".to_string(),
        version: "1.0".to_string(),
        directory: "pool/main/d/demo-src".to_string(),
        files: vec![SourceFileEntry {
            filename: "demo-src_1.0.dsc".to_string(),
            size: 321,
            md5sum: Some("md5".to_string()),
            sha1: Some("sha1".to_string()),
            sha256: Some("sha256".to_string()),
            sha512: Some("sha512".to_string()),
        }],
        extra,
    }];

    let text = build_generated_sources_text(&entries);
    assert!(text.contains("Package: demo-src\n"));
    assert!(text.contains("Version: 1.0\n"));
    assert!(text.contains("Directory: pool/main/d/demo-src\n"));
    assert!(text.contains("Maintainer: Maintainer <m@example.test>\n"));
    assert!(text.contains("Files:\n md5 321 demo-src_1.0.dsc\n"));
    assert!(text.contains("Checksums-Sha1:\n sha1 321 demo-src_1.0.dsc\n"));
    assert!(text.contains("Checksums-Sha256:\n sha256 321 demo-src_1.0.dsc\n"));
    assert!(text.contains("Checksums-Sha512:\n sha512 321 demo-src_1.0.dsc\n"));
}

#[test]
fn test_append_by_hash_release_files_adds_sha256_aliases() {
    let mut files = vec![
        ("main/binary-amd64/Packages".to_string(), b"hello".to_vec()),
        ("main/Contents-amd64".to_string(), b"world".to_vec()),
    ];
    append_by_hash_release_files(&mut files);
    let hello_sha = calculate_sha256_hex(b"hello");
    let world_sha = calculate_sha256_hex(b"world");
    assert!(files
        .iter()
        .any(|(path, bytes)| path == &by_hash_path("SHA256", &hello_sha) && bytes == b"hello"));
    assert!(files
        .iter()
        .any(|(path, bytes)| path == &by_hash_path("SHA256", &world_sha) && bytes == b"world"));
    // Idempotent: running again must not duplicate.
    let before = files.len();
    append_by_hash_release_files(&mut files);
    assert_eq!(files.len(), before);
}

#[test]
fn test_parse_contents_request() {
    let req = parse_contents_request("main/Contents-amd64").unwrap();
    assert_eq!(req.component, "main");
    assert_eq!(req.arch, "amd64");
    assert!(matches!(req.ext, PackagesExt::Plain));

    let req = parse_contents_request("universe/Contents-arm64.gz").unwrap();
    assert_eq!(req.component, "universe");
    assert_eq!(req.arch, "arm64");
    assert!(matches!(req.ext, PackagesExt::Gz));

    assert!(parse_contents_request("main/binary-amd64/Packages").is_none());
    assert!(parse_contents_request("main/Contents-amd64.bz2").is_none());
}

#[test]
fn test_package_matches_requested_arch() {
    assert!(package_matches_requested_arch("amd64", "amd64"));
    assert!(package_matches_requested_arch("all", "amd64"));
    assert!(package_matches_requested_arch("all", "all"));
    assert!(!package_matches_requested_arch("amd64", "all"));
    assert!(!package_matches_requested_arch("arm64", "amd64"));
}

#[test]
fn test_architecture_all_is_not_release_layout_architecture() {
    assert_eq!(architecture_for_release_layout("all"), None);
    assert_eq!(architecture_for_release_layout("amd64"), Some("amd64"));
}

#[test]
fn test_component_from_pool_path() {
    assert_eq!(
        component_from_pool_path("pool/non-free/n/nvidia/pkg_1_amd64.deb").as_deref(),
        Some("non-free")
    );
    assert_eq!(component_from_pool_path("not-pool/pkg.deb"), None);
}

#[test]
fn test_gzip_compress_is_deterministic() {
    let first = gzip_compress(b"Package: demo\n").unwrap();
    let second = gzip_compress(b"Package: demo\n").unwrap();
    assert_eq!(first, second);
}

#[test]
fn test_upstream_dists_paths_match_debian_mirror_layout() {
    // All five metadata endpoints build upstream paths via
    // try_proxy_dists_file(state, repo, key, dist, suffix, ct).
    // The path is always "dists/{dist}/{suffix}". Verify the
    // expected paths match the real Debian/Ubuntu mirror layout.
    let cases = vec![
        ("trixie", "Release", "dists/trixie/Release"),
        ("trixie-updates", "Release", "dists/trixie-updates/Release"),
        ("bookworm", "InRelease", "dists/bookworm/InRelease"),
        (
            "bookworm-security",
            "InRelease",
            "dists/bookworm-security/InRelease",
        ),
        ("trixie", "Release.gpg", "dists/trixie/Release.gpg"),
        (
            "trixie",
            "main/binary-amd64/Packages",
            "dists/trixie/main/binary-amd64/Packages",
        ),
        (
            "trixie",
            "non-free/binary-arm64/Packages",
            "dists/trixie/non-free/binary-arm64/Packages",
        ),
        (
            "trixie",
            "main/binary-amd64/Packages.gz",
            "dists/trixie/main/binary-amd64/Packages.gz",
        ),
        (
            "trixie",
            "main/binary-amd64/Packages.xz",
            "dists/trixie/main/binary-amd64/Packages.xz",
        ),
        (
            "bookworm",
            "main/i18n/Translation-en.xz",
            "dists/bookworm/main/i18n/Translation-en.xz",
        ),
        (
            "bookworm",
            "main/i18n/Translation-en.gz",
            "dists/bookworm/main/i18n/Translation-en.gz",
        ),
        (
            "trixie",
            "main/source/Sources.xz",
            "dists/trixie/main/source/Sources.xz",
        ),
    ];
    for (dist, suffix, expected) in &cases {
        let path = format!("dists/{}/{}", dist, suffix);
        assert_eq!(
            &path, expected,
            "path mismatch for dist={}, suffix={}",
            dist, suffix
        );
    }
}

#[test]
fn test_upstream_url_assembly_matches_debian_org() {
    // Full URL assembly: upstream_url + "/" + dists path must point at
    // the real Debian mirror.
    let upstream = "http://deb.debian.org/debian";
    let path = format!("dists/{}/{}", "trixie", "InRelease");
    let full_url = format!("{}/{}", upstream.trim_end_matches('/'), path);
    assert_eq!(
        full_url,
        "http://deb.debian.org/debian/dists/trixie/InRelease"
    );
}

#[test]
fn test_xz_compress_round_trip() {
    let original = b"Package: hello\nVersion: 1.0\nArchitecture: amd64\n";
    let compressed = xz_compress(original).expect("xz compression should succeed");
    // XZ magic bytes: 0xFD, '7', 'z', 'X', 'Z', 0x00
    assert_eq!(&compressed[..6], &[0xFD, b'7', b'z', b'X', b'Z', 0x00]);
    // Decompress and verify round-trip
    let mut decoder = xz2::read::XzDecoder::new(&compressed[..]);
    let mut decompressed = Vec::new();
    decoder
        .read_to_end(&mut decompressed)
        .expect("xz decompression should succeed");
    assert_eq!(decompressed, original);
}

#[test]
fn test_xz_compress_empty_input() {
    let compressed = xz_compress(b"").expect("xz compression of empty input should succeed");
    assert!(!compressed.is_empty(), "xz output is never zero-length");
    let mut decoder = xz2::read::XzDecoder::new(&compressed[..]);
    let mut decompressed = Vec::new();
    decoder.read_to_end(&mut decompressed).unwrap();
    assert!(decompressed.is_empty());
}

#[test]
fn test_content_type_for_dists_path_xz() {
    assert_eq!(
        content_type_for_dists_path("main/i18n/Translation-en.xz"),
        "application/x-xz"
    );
    assert_eq!(
        content_type_for_dists_path("main/binary-amd64/Packages.xz"),
        "application/x-xz"
    );
}

#[test]
fn test_content_type_for_dists_path_gz() {
    assert_eq!(
        content_type_for_dists_path("main/i18n/Translation-en.gz"),
        "application/gzip"
    );
}

#[test]
fn test_content_type_for_dists_path_bz2() {
    assert_eq!(
        content_type_for_dists_path("main/source/Sources.bz2"),
        "application/x-bzip2"
    );
}

#[test]
fn test_content_type_for_dists_path_plain() {
    assert_eq!(
        content_type_for_dists_path("main/i18n/Translation-en"),
        "text/plain; charset=utf-8"
    );
    assert_eq!(
        content_type_for_dists_path("main/source/Sources"),
        "text/plain; charset=utf-8"
    );
}

#[test]
fn test_content_type_for_dists_path_zstd() {
    assert_eq!(
        content_type_for_dists_path("main/binary-amd64/Packages.zst"),
        "application/zstd"
    );
}

#[test]
fn test_content_type_for_dists_path_lz4() {
    assert_eq!(
        content_type_for_dists_path("main/binary-amd64/Packages.lz4"),
        "application/x-lz4"
    );
}

#[test]
fn test_content_type_for_dists_path_zstd_long_extension() {
    assert_eq!(
        content_type_for_dists_path("main/binary-arm64/Packages.zstd"),
        "application/zstd"
    );
}

#[test]
fn test_strip_binary_arch_prefix_amd64() {
    assert_eq!(strip_binary_arch_prefix("binary-amd64"), "amd64");
}

#[test]
fn test_strip_binary_arch_prefix_arm64() {
    assert_eq!(strip_binary_arch_prefix("binary-arm64"), "arm64");
}

#[test]
fn test_strip_binary_arch_prefix_i386() {
    assert_eq!(strip_binary_arch_prefix("binary-i386"), "i386");
}

#[test]
fn test_strip_binary_arch_prefix_all() {
    assert_eq!(strip_binary_arch_prefix("binary-all"), "all");
}

#[test]
fn test_strip_binary_arch_prefix_no_prefix() {
    assert_eq!(strip_binary_arch_prefix("amd64"), "amd64");
}

#[test]
fn test_strip_binary_arch_prefix_empty() {
    assert_eq!(strip_binary_arch_prefix(""), "");
}

#[test]
fn test_packages_index_suffix_uncompressed() {
    assert_eq!(
        packages_index_suffix("main", "binary-amd64", ""),
        "main/binary-amd64/Packages"
    );
}

#[test]
fn test_packages_index_suffix_gz() {
    assert_eq!(
        packages_index_suffix("main", "binary-amd64", "gz"),
        "main/binary-amd64/Packages.gz"
    );
}

#[test]
fn test_packages_index_suffix_xz() {
    assert_eq!(
        packages_index_suffix("main", "binary-amd64", "xz"),
        "main/binary-amd64/Packages.xz"
    );
}

#[test]
fn test_packages_index_suffix_non_free_arm64() {
    assert_eq!(
        packages_index_suffix("non-free", "binary-arm64", "xz"),
        "non-free/binary-arm64/Packages.xz"
    );
}

#[test]
fn test_packages_index_suffix_contrib() {
    assert_eq!(
        packages_index_suffix("contrib", "binary-i386", "gz"),
        "contrib/binary-i386/Packages.gz"
    );
}

#[test]
fn test_build_packages_xz_single_entry() {
    let entries = vec![package_entry(
        "curl",
        "7.88.1-10",
        "amd64",
        "pool/main/c/curl/curl_7.88.1-10_amd64.deb",
        311296,
        "abcdef1234567890",
        "command line tool for transferring data with URL syntax",
    )];
    let compressed = build_packages_xz(&entries).expect("xz compression should succeed");
    // Verify XZ magic bytes
    assert_eq!(&compressed[..6], &[0xFD, b'7', b'z', b'X', b'Z', 0x00]);
    // Decompress and verify it contains the expected package text
    let mut decoder = xz2::read::XzDecoder::new(&compressed[..]);
    let mut decompressed = String::new();
    decoder.read_to_string(&mut decompressed).unwrap();
    assert!(decompressed.contains("Package: curl\n"));
    assert!(decompressed.contains("Version: 7.88.1-10\n"));
    assert!(decompressed.contains("Architecture: amd64\n"));
}

#[test]
fn test_build_packages_xz_multiple_entries() {
    let entries = vec![
        package_entry(
            "nginx",
            "1.24.0",
            "amd64",
            "pool/main/n/nginx/nginx_1.24.0_amd64.deb",
            1024,
            "aaa",
            "HTTP server",
        ),
        package_entry(
            "curl",
            "8.0.0",
            "amd64",
            "pool/main/c/curl/curl_8.0.0_amd64.deb",
            2048,
            "bbb",
            "URL transfer tool",
        ),
    ];
    let compressed = build_packages_xz(&entries).expect("xz compression should succeed");
    let mut decoder = xz2::read::XzDecoder::new(&compressed[..]);
    let mut decompressed = String::new();
    decoder.read_to_string(&mut decompressed).unwrap();
    assert!(decompressed.contains("Package: nginx\n"));
    assert!(decompressed.contains("Package: curl\n"));
    // Entries separated by blank line
    assert!(decompressed.contains("\n\n"));
}

#[test]
fn test_build_packages_xz_empty_entries() {
    let entries: Vec<PackageEntry> = vec![];
    let compressed = build_packages_xz(&entries).expect("xz of empty input should succeed");
    let mut decoder = xz2::read::XzDecoder::new(&compressed[..]);
    let mut decompressed = String::new();
    decoder.read_to_string(&mut decompressed).unwrap();
    assert!(decompressed.is_empty());
}

#[test]
fn test_xz_compress_large_packages_text() {
    // Generate a realistic multi-package index (the kind of data the
    // handler compresses in production).
    let mut text = String::new();
    for i in 0..50 {
        if i > 0 {
            text.push('\n');
        }
        text.push_str(&format!("Package: libfoo{}\n", i));
        text.push_str(&format!("Version: 1.0.{}\n", i));
        text.push_str("Architecture: amd64\n");
        text.push_str(&format!(
            "Filename: pool/main/libf/libfoo{}/libfoo{}_1.0.{}_amd64.deb\n",
            i, i, i
        ));
        text.push_str("Size: 10240\n");
        text.push_str("SHA256: deadbeef\n");
        text.push_str("Description: Test library\n");
    }
    let compressed = xz_compress(text.as_bytes()).expect("xz compression should succeed");
    // XZ compresses well on repetitive data
    assert!(
        compressed.len() < text.len(),
        "compressed ({}) should be smaller than original ({})",
        compressed.len(),
        text.len()
    );
    let mut decoder = xz2::read::XzDecoder::new(&compressed[..]);
    let mut decompressed = Vec::new();
    decoder.read_to_end(&mut decompressed).unwrap();
    assert_eq!(decompressed, text.as_bytes());
}

#[test]
fn test_parse_deb_filename_standard() {
    let info = parse_deb_filename("hello_2.10-2_amd64.deb").expect("standard shape parses");
    assert_eq!(info.name, "hello");
    assert_eq!(info.version, "2.10-2");
    assert_eq!(info.arch, "amd64");
}

#[test]
fn test_parse_deb_filename_missing_deb_suffix() {
    // No .deb suffix at all -- strip_suffix returns None.
    assert!(parse_deb_filename("hello_2.10-2_amd64").is_none());
}

#[test]
fn test_parse_deb_filename_only_two_segments() {
    // Two underscores would be required; this has one.
    assert!(parse_deb_filename("hello_amd64.deb").is_none());
}

#[test]
fn test_parse_deb_filename_version_may_contain_underscores() {
    // splitn(3) caps at three pieces, so any extra underscores in
    // segment 3 become part of the `arch` field. This pins the
    // splitn behaviour so a future refactor that bumps the split
    // depth shows up as an explicit test break.
    let info = parse_deb_filename("pkg_1.0_amd64_extra.deb").expect("splitn yields 3 segments");
    assert_eq!(info.name, "pkg");
    assert_eq!(info.version, "1.0");
    assert_eq!(info.arch, "amd64_extra");
}

#[test]
fn test_strip_binary_arch_prefix_present() {
    assert_eq!(strip_binary_arch_prefix("binary-amd64"), "amd64");
}

#[test]
fn test_strip_binary_arch_prefix_absent() {
    // Without the binary- prefix the input is returned unchanged.
    assert_eq!(strip_binary_arch_prefix("amd64"), "amd64");
}

#[test]
fn test_strip_binary_arch_prefix_only_prefix() {
    // Edge case: the prefix is the entire input.
    assert_eq!(strip_binary_arch_prefix("binary-"), "");
}

#[test]
fn test_packages_index_suffix_plain() {
    assert_eq!(
        packages_index_suffix("main", "binary-amd64", ""),
        "main/binary-amd64/Packages"
    );
}

#[test]
fn test_packages_index_suffix_compressed() {
    assert_eq!(
        packages_index_suffix("main", "binary-amd64", "gz"),
        "main/binary-amd64/Packages.gz"
    );
    assert_eq!(
        packages_index_suffix("contrib", "binary-arm64", "xz"),
        "contrib/binary-arm64/Packages.xz"
    );
}

#[test]
fn test_parse_packages_request_wrong_segment_count() {
    // Two segments -- caller should fall through to the upstream
    // proxy, not handle it as a Packages request.
    assert!(parse_packages_request("main/Packages").is_none());
    // Four segments.
    assert!(parse_packages_request("main/binary-amd64/extra/Packages").is_none());
}

#[test]
fn test_parse_packages_request_missing_binary_prefix() {
    // Middle segment must start with "binary-"; "src-" is a real
    // Debian segment but is not handled here.
    assert!(parse_packages_request("main/src-amd64/Sources").is_none());
    assert!(parse_packages_request("main/amd64/Packages").is_none());
}

#[test]
fn test_parse_packages_request_unknown_extension() {
    // Anything other than Packages / Packages.gz / Packages.xz
    // is None so the caller proxies to upstream.
    assert!(parse_packages_request("main/binary-amd64/Packages.bz2").is_none());
    assert!(parse_packages_request("main/binary-amd64/Release").is_none());
}

#[test]
fn test_signed_release_cache_key_is_deterministic() {
    let a = signed_release_cache_key(SignedReleaseVariant::InRelease, "Release\n", "abcd");
    let b = signed_release_cache_key(SignedReleaseVariant::InRelease, "Release\n", "abcd");
    assert_eq!(a, b);
    // SHA-256 hex = 64 chars.
    assert_eq!(a.len(), 64);
}

#[test]
fn test_signed_release_cache_key_variant_namespaces_collide_safely() {
    let a = signed_release_cache_key(SignedReleaseVariant::InRelease, "Release\n", "abcd");
    let b = signed_release_cache_key(SignedReleaseVariant::ReleaseGpg, "Release\n", "abcd");
    assert_ne!(a, b);
}

#[test]
fn test_signed_release_cache_key_content_change_rotates_key() {
    let a = signed_release_cache_key(SignedReleaseVariant::InRelease, "Release\n", "abcd");
    let b =
        signed_release_cache_key(SignedReleaseVariant::InRelease, "Release-changed\n", "abcd");
    assert_ne!(a, b);
}

#[test]
fn test_signed_release_cache_key_fingerprint_change_rotates_key() {
    // A signing-key rotation must rotate the cache key so we never
    // serve a signature produced by a deactivated key.
    let a = signed_release_cache_key(SignedReleaseVariant::InRelease, "Release\n", "abcd");
    let b = signed_release_cache_key(SignedReleaseVariant::InRelease, "Release\n", "ef01");
    assert_ne!(a, b);
}

// Package files of a remote repository.

fn remote_request<'a>(config: &'a DebianRepositoryConfig) -> RemotePackage<'a> {
    RemotePackage {
        has_proxy: true,
        config: Some(config),
        allowed: true,
        path_check: Ok(()),
        generation_active: false,
        expected_sha256: None,
    }
}

#[test]
fn test_pool_download_passthrough_package_strategy_uses_uncached_proxy() {
    let passthrough = DebianRepositoryConfig {
        package_fetch_strategy: DebianPackageFetchStrategy::Passthrough,
        ..Default::default()
    };
    assert_eq!(
        decide_package_fetch(remote_request(&passthrough)),
        Ok(PackageFetch::Uncached)
    );

    let on_demand = DebianRepositoryConfig::default();
    assert_eq!(
        decide_package_fetch(RemotePackage {
            expected_sha256: Some("abc".to_string()),
            ..remote_request(&on_demand)
        }),
        Ok(PackageFetch::Cached(Some("abc".to_string())))
    );
}

#[test]
fn test_pool_download_wires_filter_and_ssrf_helpers() {
    let config = DebianRepositoryConfig::default();
    let barred = decide_package_fetch(RemotePackage {
        allowed: false,
        ..remote_request(&config)
    })
    .unwrap_err();
    assert_eq!(barred.status, 404);

    let bad_path = decide_package_fetch(RemotePackage {
        path_check: Err(AppError::Validation("path leaves the upstream".to_string())),
        ..remote_request(&config)
    })
    .unwrap_err();
    assert_eq!(bad_path.status, 400);
    assert_eq!(bad_path.message, "path leaves the upstream");
}

#[test]
fn test_flat_package_route_registered() {
    let flat = DebianRepositoryConfig {
        flat_repository: true,
        ..Default::default()
    };
    assert_eq!(check_flat_download(Some(&flat), true, Ok(())), Ok(()));
    assert_eq!(
        decide_flat_download(false, RepositoryType::Remote, true),
        Ok(DownloadAction::Proxy)
    );
    // A repository with a pool has no package files elsewhere.
    let pooled = DebianRepositoryConfig::default();
    let refusal = check_flat_download(Some(&pooled), true, Ok(())).unwrap_err();
    assert_eq!(refusal.status, 404);
    let refusal = check_flat_download(Some(&flat), false, Ok(())).unwrap_err();
    assert_eq!(refusal.status, 404);
}

// Answers.

#[test]
fn test_build_dists_response_uses_upstream_content_type_when_present() {
    let body = b"Origin: Debian\n".to_vec();
    let resp = build_dists_response(
        body.clone(),
        Some("application/octet-stream".to_string()),
        "text/plain; charset=utf-8",
    );
    assert_eq!(resp.content_type, "application/octet-stream");
    assert_eq!(resp.content_length, body.len() as u64);
    assert_eq!(resp.body, body);
}

#[test]
fn test_build_dists_response_falls_back_to_default_content_type() {
    let body = b"abc".to_vec();
    let resp = build_dists_response(body, None, "text/plain; charset=utf-8");
    assert_eq!(resp.content_type, "text/plain; charset=utf-8");
}

#[test]
fn test_build_dists_response_empty_body_reports_zero_length() {
    let resp = build_dists_response(Vec::new(), None, "text/plain; charset=utf-8");
    assert_eq!(resp.content_length, 0);
}

#[test]
fn test_dists_serving_is_generation_aware_not_per_request_filtered() {
    // Once a local generation is published, a path that it does not cover is
    // not fetched from an upstream, whatever the repository is.
    for repo_type in [
        RepositoryType::Local,
        RepositoryType::Remote,
        RepositoryType::Virtual,
        RepositoryType::Staging,
    ] {
        let refusal = decide_dists_action(true, repo_type, true, true).unwrap_err();
        assert_eq!(refusal.status, 404);
        let refusal = decide_catchall_action(true, repo_type, true, true).unwrap_err();
        assert_eq!(refusal.status, 404);
    }
    // Without one, passthrough is transparent.
    assert_eq!(
        decide_dists_action(false, RepositoryType::Remote, true, true),
        Ok(DistsAction::Fetch)
    );
    assert_eq!(
        decide_catchall_action(false, RepositoryType::Virtual, false, true),
        Ok(DistsAction::WalkMembers)
    );
}

// Members of a virtual repository.

fn refused(status: u16) -> Refusal {
    Refusal {
        status,
        message: "upstream".to_string(),
    }
}

fn go_on(step: WalkStep) -> MemberWalk {
    match step {
        WalkStep::GoOn(walk) => walk,
        WalkStep::Found(_) => panic!("no file was answered"),
    }
}

#[test]
fn upstream_failure_surfaces_instead_of_empty_200() {
    let walk = go_on(MemberWalk::new().took(Err(refused(502)), "application/octet-stream"));
    let refusal = walk.finish().expect_err(
        "a genuine upstream failure must surface as Err, not be masked into Ok(None)/empty-200",
    );
    assert_eq!(refusal.status, 502);
}

#[test]
fn missing_member_file_falls_through_to_none() {
    let walk = go_on(MemberWalk::new().took(Err(refused(404)), "application/octet-stream"));
    assert!(matches!(walk.finish(), Ok(None)));
}

#[test]
fn detecting_change_upstream_failure_surfaces() {
    let walk = go_on(MemberWalk::new().took(Err(refused(503)), "application/octet-stream"));
    let refusal = walk
        .finish()
        .expect_err("a 5xx upstream must surface as Err, not empty Ok(None)");
    assert_eq!(refusal.status, 503);
}

#[test]
fn detecting_change_missing_member_falls_through_to_none() {
    let walk = go_on(MemberWalk::new().took(Err(refused(404)), "text/plain; charset=utf-8"));
    assert!(matches!(walk.finish(), Ok(None)));
}

// Release layout.

#[test]
fn test_effective_release_layout_prefers_configured_components_and_architectures() {
    let config = DebianRepositoryConfig {
        components: vec!["universe".to_string(), "main".to_string()],
        architectures: vec!["amd64".to_string(), "all".to_string(), "arm64".to_string()],
        ..Default::default()
    };
    let discovered_components = text_set(&["main"]);
    let discovered_architectures = text_set(&["amd64"]);

    let (components, architectures) = effective_release_layout(
        Some(&config),
        discovered_components,
        discovered_architectures,
    );

    assert_eq!(
        components.items(),
        &vec!["main".to_string(), "universe".to_string()]
    );
    assert_eq!(
        architectures.items(),
        &vec!["amd64".to_string(), "arm64".to_string()]
    );
}

#[test]
fn test_effective_release_layout_uses_discovered_values_for_wildcards() {
    let config = DebianRepositoryConfig {
        components: vec!["*".to_string()],
        architectures: Vec::new(),
        ..Default::default()
    };
    let discovered_components = text_set(&["main", "universe"]);
    let discovered_architectures = text_set(&["amd64", "arm64"]);

    let (components, architectures) = effective_release_layout(
        Some(&config),
        discovered_components,
        discovered_architectures,
    );

    assert_eq!(
        components.items(),
        &vec!["main".to_string(), "universe".to_string()]
    );
    assert_eq!(
        architectures.items(),
        &vec!["amd64".to_string(), "arm64".to_string()]
    );
}

#[test]
fn test_package_matches_requested_distribution() {
    let jammy = with_distribution(" jammy ");
    let bookworm = with_distribution("bookworm");
    let legacy = ArtifactMetadata {
        component: Some("main".to_string()),
        ..stored_metadata()
    };
    let empty = with_distribution("");
    let null_distribution = stored_metadata();

    assert!(package_matches_requested_distribution(
        Some(&jammy),
        "jammy"
    ));
    assert!(!package_matches_requested_distribution(
        Some(&bookworm),
        "jammy"
    ));
    assert!(package_matches_requested_distribution(
        Some(&legacy),
        "jammy"
    ));
    assert!(package_matches_requested_distribution(
        Some(&empty),
        "jammy"
    ));
    assert!(package_matches_requested_distribution(
        Some(&null_distribution),
        "jammy"
    ));
    assert!(package_matches_requested_distribution(None, "jammy"));
}

// Generated metadata.

#[test]
fn test_synced_generated_metadata_builds_indexes_and_release_hashes() {
    let plan = DebianSyncPlan {
        distribution: "jammy".to_string(),
        release_paths: vec![],
        package_indexes: vec![DebianIndexPath {
            component: "main".to_string(),
            architecture: "amd64".to_string(),
            path: "main/binary-amd64/Packages.xz".to_string(),
        }],
        source_indexes: vec![DebianSourceIndexPath {
            component: "main".to_string(),
            path: "main/source/Sources.gz".to_string(),
        }],
        package_files: vec![],
        source_files: vec![],
        missing_package_indexes: vec![],
        missing_source_indexes: vec![],
    };
    let mut packages: TextMap<Vec<PackagesEntry>> = TextMap::new();
    packages.insert(
        "main/binary-amd64/Packages.xz".to_string(),
        vec![PackagesEntry {
            control: DebControl {
                package: "libdemo".to_string(),
                version: "1.0".to_string(),
                architecture: "amd64".to_string(),
                description: Some("demo".to_string()),
                ..DebControl::default()
            },
            filename: Some("pool/main/libd/libdemo/libdemo_1.0_amd64.deb".to_string()),
            size: Some(123),
            md5sum: None,
            sha1: None,
            sha256: Some("sha256".to_string()),
        }],
    );
    let mut sources: TextMap<Vec<SourcesEntry>> = TextMap::new();
    sources.insert(
        "main/source/Sources.gz".to_string(),
        vec![SourcesEntry {
            package: "demo-src".to_string(),
            version: "1.0".to_string(),
            directory: "pool/main/d/demo-src".to_string(),
            files: vec![],
            extra: TextMap::new(),
        }],
    );
    let mut contents: TextMap<String> = TextMap::new();
    contents.insert(
        "main/binary-amd64/Packages.xz".to_string(),
        "usr/lib/libdemo.so libs/libdemo\n".to_string(),
    );

    let generated = build_synced_generated_metadata(
        &plan,
        &packages,
        &sources,
        &["amd64".to_string()],
        &contents,
    )
    .unwrap();
    assert!(generated
        .plain_indexes
        .contains_key("main/binary-amd64/Packages"));
    assert!(generated.plain_indexes.contains_key("main/source/Sources"));
    assert!(generated.plain_indexes.contains_key("main/Contents-amd64"));
    assert!(generated
        .release_files
        .iter()
        .any(|(path, _)| path == "main/binary-amd64/Packages.gz"));
    assert!(generated
        .release_files
        .iter()
        .any(|(path, _)| path == "main/source/Sources.xz"));
    assert!(generated
        .release_files
        .iter()
        .any(|(path, _)| path == "main/Contents-amd64.gz"));
    assert!(
        generated
            .release_files
            .iter()
            .any(|(path, _)| path.starts_with("by-hash/SHA256/")),
        "synced metadata must publish by-hash aliases"
    );
    let stored = &generated.plain_indexes;
    assert!(
        (0..stored.len()).any(|i| stored.value_at(i).starts_with("@ref:")),
        "by-hash aliases must be stored as @ref: logical-path pointers"
    );

    let components = text_set(&["main"]);
    let architectures = text_set(&["amd64"]);
    let files: Vec<DigestedFile> = generated
        .release_files
        .into_iter()
        .map(|(path, bytes)| DigestedFile {
            path,
            bytes,
            md5: "md5".to_string(),
            sha1: "sha1".to_string(),
        })
        .collect();
    let release = build_release_content_from_files(
        "jammy",
        Some("jammy"),
        None,
        &components,
        &architectures,
        files,
    );
    assert!(release.contains("MD5Sum:\n"));
    assert!(release.contains("SHA1:\n"));
    assert!(release.contains("SHA256:\n"));
    assert!(release.contains("SHA512:\n"));
    assert!(release.contains(" main/binary-amd64/Packages\n"));
    assert!(release.contains(" main/binary-amd64/Packages.gz\n"));
    assert!(release.contains(" main/binary-amd64/Packages.xz\n"));
    assert!(release.contains(" main/Contents-amd64\n"));
    assert!(release.contains(" main/Contents-amd64.gz\n"));
    assert!(release.contains(" main/source/Sources\n"));
    assert!(release.contains(" main/source/Sources.gz\n"));
    assert!(release.contains(" main/source/Sources.xz\n"));
    assert!(release.contains(" by-hash/SHA256/"));
}

// Uploads.

#[test]
fn test_build_debian_artifact_metadata_installer_component() {
    let control = DebControl {
        package: "base-installer".to_string(),
        version: "1.200".to_string(),
        architecture: "amd64".to_string(),
        maintainer: None,
        installed_size: None,
        depends: None,
        pre_depends: None,
        recommends: None,
        suggests: None,
        conflicts: None,
        provides: None,
        replaces: None,
        section: Some("utils".to_string()),
        priority: None,
        homepage: None,
        description: None,
        source: None,
        extra: TextMap::new(),
    };
    let meta = build_debian_artifact_metadata(
        Some("bookworm"),
        "debian-installer",
        "pool/debian-installer/b/base-installer/base-installer_1.200_amd64.udeb",
        "base-installer_1.200_amd64.udeb",
        "udeb",
        &control,
    );
    assert_eq!(meta.package_type, "udeb");
    assert_eq!(meta.section.as_deref(), Some("debian-installer"));
    assert_eq!(meta.component, "debian-installer");
}

#[test]
fn test_debian_upload_metadata_headers() {
    let mut headers = UploadHeaders::new();
    headers.insert("x-debian-distribution", b"bookworm");
    headers.insert("x-debian-component", b"main");
    headers.insert("x-debian-architecture", b"amd64");

    assert_eq!(
        debian_upload_distribution(&headers).unwrap().as_deref(),
        Some("bookworm")
    );
    assert_eq!(
        debian_upload_component(&headers).unwrap().as_deref(),
        Some("main")
    );
    assert_eq!(
        debian_upload_architecture(&headers).unwrap().as_deref(),
        Some("amd64")
    );
    assert!(validate_debian_component_header("main", Some("main")).is_ok());
    assert!(validate_debian_component_header("main", Some("universe")).is_err());

    headers.insert("x-debian-component", b"../main");
    assert!(debian_upload_component(&headers).is_err());
}

#[test]
fn test_debian_artifact_metadata_includes_upload_context() {
    let control = DebControl {
        package: "sample".to_string(),
        version: "1.0-1".to_string(),
        architecture: "amd64".to_string(),
        ..DebControl::default()
    };
    let metadata = build_debian_artifact_metadata(
        Some("bookworm"),
        "main",
        "pool/main/s/sample/sample_1.0-1_amd64.deb",
        "sample_1.0-1_amd64.deb",
        "deb",
        &control,
    );

    assert_eq!(metadata.distribution.as_deref(), Some("bookworm"));
    assert_eq!(metadata.component, "main");
    assert_eq!(metadata.control.architecture, "amd64");
}

#[test]
fn test_should_enqueue_debian_sync_tasks_for_direct_upload() {
    assert!(should_enqueue_debian_sync_tasks(&UploadHeaders::new()));
}

#[test]
fn test_should_enqueue_debian_sync_tasks_skips_peer_replication() {
    assert!(!should_enqueue_debian_sync_tasks(
        &headers_with_replication("true")
    ));
}

#[test]
fn pool_upload_populates_debian_metadata_packages_and_indexes() {
    let package = "ak-debian-indexed";
    let version = "1.2.3-1";
    let arch = "amd64";
    let deb = minimal_deb(package, version, arch, "indexed Debian package");
    let path = format!("a/{package}/{package}_{version}_{arch}.deb");
    let upload = prepare_pool_upload(&UploadHeaders::new(), "main", &path, &deb)
        .unwrap_or_else(|refusal| panic!("upload failed: {}", refusal.message));
    assert_eq!(
        upload.artifact_path,
        format!("pool/main/a/{package}/{package}_{version}_{arch}.deb")
    );
    assert_eq!(upload.control.package, package);
    assert_eq!(upload.control.version, version);
    assert_eq!(upload.metadata.component, "main");
    assert!(upload.metadata.distribution.is_none());
    assert_eq!(upload.metadata.control.architecture, arch);
    assert_eq!(
        upload.metadata.control.depends,
        Some(vec!["libc6 (>= 2.36)".to_string()])
    );
    assert_eq!(
        package_description(&upload.control),
        Some("indexed Debian package\nextended description line")
    );
    let catalog = build_debian_package_catalog_metadata(&upload);
    assert_eq!(catalog.architecture, arch);
    assert!(catalog.distribution.is_none());
    assert_eq!(catalog.component, "main");

    let sha256 = calculate_sha256_hex(&deb);
    assert_eq!(sha256.len(), 64);
    let row = || ArtifactRow {
        path: upload.artifact_path.clone(),
        size: deb.len() as i64,
        sha256: sha256.clone(),
        sha1: None,
        md5: None,
        metadata: Some(ArtifactMetadata {
            control: Some(upload.control.clone()),
            component: Some("main".to_string()),
            ..stored_metadata()
        }),
    };
    let entries = select_package_entries(&[row()], "bookworm", arch);
    let packages_text = build_packages_text(&entries);
    assert!(packages_text.contains(&format!("Package: {package}\n")));
    assert!(packages_text.contains("Architecture: amd64\n"));
    assert!(packages_text.contains("Depends: libc6 (>= 2.36)\n"));
    assert!(packages_text
        .contains("Description: indexed Debian package\n extended description line\n"));
    assert!(packages_text.contains("SHA256: "));

    let all = build_packages_text(&select_package_entries(&[row()], "bookworm", "all"));
    assert!(
        !all.contains(&format!("Package: {package}\n")),
        "binary-all must not contain arch-specific packages"
    );

    let (components, architectures) = discover_release_layout(&[row()]);
    let (components, architectures) = effective_release_layout(None, components, architectures);
    let mut files: Vec<(String, Vec<u8>)> = Vec::new();
    for component in components.items() {
        for arch in architectures.items() {
            let entries = select_package_entries(&[row()], "bookworm", arch);
            push_hosted_indexes(&mut files, component, arch, &entries, "").unwrap();
        }
    }
    append_by_hash_release_files(&mut files);
    let release = build_release_content_from_files(
        "bookworm",
        None,
        None,
        &components,
        &architectures,
        files
            .into_iter()
            .map(|(path, bytes)| DigestedFile {
                path,
                bytes,
                md5: "md5".to_string(),
                sha1: "sha1".to_string(),
            })
            .collect(),
    );
    assert!(release.contains("Architectures: amd64\n"));
    assert!(release.contains("Components: main\n"));
    assert!(release.contains("MD5Sum:\n"));
    assert!(release.contains("SHA1:\n"));
    assert!(release.contains("SHA256:\n"));
    assert!(release.contains("SHA512:\n"));
    assert!(release.contains("main/binary-amd64/Packages\n"));
    assert!(release.contains("main/binary-amd64/Packages.gz\n"));
    assert!(release.contains("main/binary-amd64/Packages.xz\n"));
}

// Syncs.

fn sync_config() -> DebianRepositoryConfig {
    DebianRepositoryConfig {
        distributions: vec!["jammy".to_string()],
        components: vec!["main".to_string()],
        architectures: vec!["amd64".to_string()],
        include_source_packages: true,
        package_queries: vec!["nginx (>= 1.0)".to_string()],
        resolve_dependencies: true,
        verify_upstream_metadata: true,
        upstream_gpg_key_id: Some("ABCD".to_string()),
        signing_enabled: true,
        generated_metadata_enabled: true,
        package_fetch_strategy: DebianPackageFetchStrategy::PrefetchSelected,
        ..Default::default()
    }
}

const PACKAGES: &str = "Package: nginx\nVersion: 1.0\nArchitecture: amd64\nFilename: pool/main/n/nginx/nginx_1.0_amd64.deb\nSize: 3\nSHA256: ABC\n";
const SOURCES: &str = "Package: nginx\nVersion: 1.0\nDirectory: pool/main/n/nginx\nFiles:\n m 2 nginx_1.0.dsc\nChecksums-Sha256:\n DEF 2 nginx_1.0.dsc\n";

fn upstream_release() -> String {
    format!(
        "Suite: jammy\nDate: Tue, 07 Jul 2026 12:00:00 UTC\nArchitectures: amd64\nComponents: main\nSHA256:\n {} {} main/binary-amd64/Packages\n {} {} main/source/Sources\n",
        calculate_sha256_hex(PACKAGES.as_bytes()),
        PACKAGES.len(),
        calculate_sha256_hex(SOURCES.as_bytes()),
        SOURCES.len(),
    )
}

/// Answers an action as an upstream does that serves `packages`.
fn answer(action: &SyncAction<'_>, packages: &str) -> SyncEvent {
    match action {
        SyncAction::Fetch(path) => match path.as_str() {
            "dists/jammy/Release" => SyncEvent::Fetched(upstream_release().into_bytes()),
            "dists/jammy/InRelease" => SyncEvent::Fetched(b"signed".to_vec()),
            "dists/jammy/main/binary-amd64/Packages" => {
                SyncEvent::Fetched(packages.as_bytes().to_vec())
            }
            "dists/jammy/main/source/Sources" => SyncEvent::Fetched(SOURCES.as_bytes().to_vec()),
            _ => SyncEvent::Failed(refused(404)),
        },
        SyncAction::LookUpKey(_) => SyncEvent::Key(Some("key".to_string())),
        SyncAction::VerifyCleartext(_, _) => SyncEvent::Payload(upstream_release()),
        SyncAction::BuildContents(_) => SyncEvent::Contents(TextMap::new()),
        SyncAction::DigestFiles(files) => SyncEvent::Digests(
            files
                .iter()
                .map(|_| ("md5".to_string(), "sha1".to_string()))
                .collect(),
        ),
        _ => SyncEvent::Accepted,
    }
}

#[test]
fn test_sync_verifies_indexes_and_gates_prefetch_and_publishes_atomically() {
    // Metadata of an upstream that is not verified is never signed.
    let unverified = DebianRepositoryConfig {
        verify_upstream_metadata: false,
        ..sync_config()
    };
    let refusal =
        SyncRun::begin(RepositoryType::Remote, Some(unverified), true, true).unwrap_err();
    assert_eq!(refusal.status, 400);
    assert!(refusal.message.contains("unverified upstream"));

    let mut run =
        SyncRun::begin(RepositoryType::Remote, Some(sync_config()), true, true).unwrap();
    // The paths are held against the filter of the sync, which takes sources and
    // has the queries of the configuration.
    assert_eq!(run.filter().selection.distributions, vec!["jammy"]);
    assert_eq!(run.filter().selection.components, vec!["main"]);
    assert_eq!(run.filter().selection.architectures, vec!["amd64"]);
    assert!(run.filter().selection.include_source_packages);
    assert_eq!(run.filter().package_queries, vec!["nginx (>= 1.0)"]);
    assert!(run.filter().resolve_dependencies);
    let pool = debian_sync_filter_for_path_check(&sync_config());
    assert!(pool.selection.distributions.is_empty());
    assert_eq!(pool.selection.components, vec!["main"]);
    assert!(!pool.selection.include_source_packages);
    assert_eq!(pool.package_queries, vec!["nginx (>= 1.0)"]);
    assert!(!pool.resolve_dependencies);
    let mut checked = Vec::new();
    let mut prefetched = Vec::new();
    let mut published = Vec::new();
    loop {
        let action = run.action();
        match &action {
            SyncAction::CheckFetchPath(path) => checked.push(path.to_string()),
            SyncAction::PrefetchPackage(path, digest) | SyncAction::PrefetchSource(path, digest) => {
                // A path is checked before it is fetched, and its digest is known.
                assert_eq!(checked.last().map(String::as_str), Some(*path));
                prefetched.push((path.to_string(), digest.map(str::to_string)));
            }
            SyncAction::Publish(publication) => {
                published.push(publication.rows.len());
                let prefix = synced_dists_key_prefix("jammy");
                assert_eq!(publication.cleared_prefix, prefix);
                // Packages, Contents and Sources, each with the hashes of its three
                // forms, and then the Release.
                assert_eq!(publication.rows.len(), 13);
                assert!(publication.rows[..12].iter().all(|(key, _)| key.starts_with(&prefix)));
                assert!(publication.rows.iter().any(|(key, text)| key
                    == "debian_synced_release:jammy"
                    && text.contains("main/binary-amd64/Packages.xz")));
            }
            SyncAction::Finish => break,
            _ => {}
        }
        let event = answer(&action, PACKAGES);
        run = run.step(event).unwrap();
    }
    assert_eq!(
        prefetched,
        vec![
            (
                "pool/main/n/nginx/nginx_1.0_amd64.deb".to_string(),
                Some("abc".to_string())
            ),
            (
                "pool/main/n/nginx/nginx_1.0.dsc".to_string(),
                Some("def".to_string())
            ),
        ]
    );
    assert_eq!(published.len(), 1);
    let response = run.finish("mirror".to_string());
    assert_eq!(response.plans.len(), 1);
    assert_eq!(response.prefetched_packages, 1);
    assert_eq!(response.prefetched_sources, 1);

    // An index that is not the one that the Release advertises ends the sync.
    let mut run =
        SyncRun::begin(RepositoryType::Remote, Some(sync_config()), true, true).unwrap();
    let refusal = loop {
        let event = answer(&run.action(), "Package: redis\n");
        run = match run.step(event) {
            Ok(next) => next,
            Err(refusal) => break refusal,
        };
    };
    assert_eq!(refusal.status, 502);
    assert!(refusal
        .message
        .starts_with("Failed to verify upstream Debian Packages index: "));
}

#[test]
fn publication_vouches_for_what_was_generated() {
    let mut run =
        SyncRun::begin(RepositoryType::Remote, Some(sync_config()), true, true).unwrap();
    let mut generated: Vec<(String, Vec<u8>)> = Vec::new();
    let release = loop {
        let action = run.action();
        match &action {
            SyncAction::DigestFiles(files) => generated = files.to_vec(),
            SyncAction::Publish(publication) => {
                let (key, text) = publication.rows.last().unwrap();
                assert_eq!(key, "debian_synced_release:jammy");
                break parse_release(text).unwrap();
            }
            _ => {}
        }
        let event = answer(&action, PACKAGES);
        run = run.step(event).unwrap();
    };
    // Packages, Contents and Sources, each in three forms and under two names.
    assert_eq!(generated.len(), 18);
    for (path, bytes) in &generated {
        assert_eq!(
            verify_index_against_release(&release, path, bytes, true),
            Ok(())
        );
    }
    assert_eq!(release.suite, "jammy");
    assert_eq!(release.components, vec!["main"]);
}

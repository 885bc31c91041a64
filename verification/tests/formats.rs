//! Package files, control stanzas, indexes, Releases and sync plans.

use std::io::Write;

use debian_repo::cache::{
    decide_debian_cache_action, is_debian_metadata_path, DebianCacheAction, DebianCacheDecisionInput,
};
use debian_repo::control::DebControl;
use debian_repo::deb::{DebianHandler, DebianOperation};
use debian_repo::emit::{generate_packages_entry, generate_release};
use debian_repo::error::Result;
use debian_repo::index::{
    parse_packages_index, parse_sources_index, PackagesEntry, SourceFileEntry, SourcesEntry,
};
use debian_repo::ordered::TextMap;
use debian_repo::plan::{build_debian_sync_plan, DebianSyncDownloadPolicy};
use debian_repo::release::{parse_in_release, parse_release, parse_release_gpg, ReleaseHash};
use debian_repo::select::{
    filter_release_package_indexes, filter_release_source_indexes,
    package_matches_sync_architecture, package_matches_sync_index,
    validate_release_filter_selection, DebianIndexPath, DebianSourceIndexPath, DebianSyncFilter,
};
use debian_repo::signer::{generate_in_release, generate_release_gpg, DebianReleaseSigner};
use flate2::write::GzEncoder;

struct MockSigner;

impl DebianReleaseSigner for MockSigner {
    fn sign_in_release(&self, release: &str) -> Result<String> {
        Ok(format!(
            "-----BEGIN PGP SIGNED MESSAGE-----\nHash: SHA256\n\n{release}-----BEGIN PGP SIGNATURE-----\nmock\n-----END PGP SIGNATURE-----\n"
        ))
    }

    fn sign_release_gpg(&self, release: &[u8]) -> Result<Vec<u8>> {
        let mut signature = b"mock-detached:".to_vec();
        signature.extend_from_slice(release);
        Ok(signature)
    }
}

struct EchoSigner;

impl DebianReleaseSigner for EchoSigner {
    fn sign_in_release(&self, release: &str) -> Result<String> {
        Ok(release.to_string())
    }

    fn sign_release_gpg(&self, release: &[u8]) -> Result<Vec<u8>> {
        Ok(release.to_vec())
    }
}

// ========================================================================
// parse_deb_filename tests
// ========================================================================

#[test]
fn test_parse_deb_filename() {
    let (pkg, ver, arch) =
        DebianHandler::parse_deb_filename("nginx_1.24.0-1_amd64.deb").unwrap();
    assert_eq!(pkg, "nginx");
    assert_eq!(ver, "1.24.0-1");
    assert_eq!(arch, "amd64");
}

#[test]
fn test_parse_deb_filename_all_arch() {
    let (pkg, ver, arch) =
        DebianHandler::parse_deb_filename("python3-pip_23.0.1-1_all.deb").unwrap();
    assert_eq!(pkg, "python3-pip");
    assert_eq!(ver, "23.0.1-1");
    assert_eq!(arch, "all");
}

#[test]
fn test_parse_deb_filename_arm64() {
    let (pkg, ver, arch) = DebianHandler::parse_deb_filename("libc6_2.36-9_arm64.deb").unwrap();
    assert_eq!(pkg, "libc6");
    assert_eq!(ver, "2.36-9");
    assert_eq!(arch, "arm64");
}

#[test]
fn debian_test_parse_deb_filename_udeb() {
    let (pkg, ver, arch) =
        DebianHandler::parse_deb_filename("base-installer_1.200_amd64.udeb").unwrap();
    assert_eq!(pkg, "base-installer");
    assert_eq!(ver, "1.200");
    assert_eq!(arch, "amd64");
}

#[test]
fn test_parse_deb_filename_epoch_in_version() {
    // Debian allows epoch: "1:1.0-1" but _ separates fields
    let (pkg, ver, arch) =
        DebianHandler::parse_deb_filename("pkg_1%3a2.0-1_amd64.deb").unwrap();
    assert_eq!(pkg, "pkg");
    assert_eq!(ver, "1%3a2.0-1");
    assert_eq!(arch, "amd64");
}

#[test]
fn test_parse_deb_filename_debian_version_special_characters() {
    let (pkg, ver, arch) =
        DebianHandler::parse_deb_filename("nginx_1:1.24.0-1~ubuntu+1_amd64.deb").unwrap();
    assert_eq!(pkg, "nginx");
    assert_eq!(ver, "1:1.24.0-1~ubuntu+1");
    assert_eq!(arch, "amd64");
}

#[test]
fn test_parse_deb_filename_too_few_underscores() {
    let result = DebianHandler::parse_deb_filename("invalid_name.deb");
    assert!(result.is_err());
}

#[test]
fn debian_test_parse_deb_filename_no_underscores() {
    let result = DebianHandler::parse_deb_filename("invalidname.deb");
    assert!(result.is_err());
}

// ========================================================================
// parse_path tests
// ========================================================================

#[test]
fn test_parse_path_package() {
    let info = DebianHandler::parse_path("pool/main/n/nginx/nginx_1.24.0-1_amd64.deb").unwrap();
    assert!(matches!(info.operation, DebianOperation::Package));
    assert_eq!(info.package, Some("nginx".to_string()));
    assert_eq!(info.component, Some("main".to_string()));
}

#[test]
fn test_parse_path_release() {
    let info = DebianHandler::parse_path("dists/jammy/Release").unwrap();
    assert!(matches!(info.operation, DebianOperation::Release));
    assert_eq!(info.distribution, Some("jammy".to_string()));
}

#[test]
fn test_parse_path_release_gpg() {
    let info = DebianHandler::parse_path("dists/jammy/Release.gpg").unwrap();
    assert!(matches!(info.operation, DebianOperation::Release));
    assert_eq!(info.distribution, Some("jammy".to_string()));
}

#[test]
fn test_parse_path_inrelease() {
    let info = DebianHandler::parse_path("dists/focal/InRelease").unwrap();
    assert!(matches!(info.operation, DebianOperation::Release));
    assert_eq!(info.distribution, Some("focal".to_string()));
}

#[test]
fn test_parse_path_packages() {
    let info = DebianHandler::parse_path("dists/jammy/main/binary-amd64/Packages.gz").unwrap();
    assert!(matches!(info.operation, DebianOperation::Packages));
    assert_eq!(info.distribution, Some("jammy".to_string()));
    assert_eq!(info.component, Some("main".to_string()));
    assert_eq!(info.arch, Some("amd64".to_string()));
}

#[test]
fn test_parse_path_packages_xz() {
    let info =
        DebianHandler::parse_path("dists/bookworm/main/binary-arm64/Packages.xz").unwrap();
    assert!(matches!(info.operation, DebianOperation::Packages));
    assert_eq!(info.arch, Some("arm64".to_string()));
}

#[test]
fn test_parse_path_packages_uncompressed() {
    let info = DebianHandler::parse_path("dists/jammy/universe/binary-i386/Packages").unwrap();
    assert!(matches!(info.operation, DebianOperation::Packages));
    assert_eq!(info.component, Some("universe".to_string()));
    assert_eq!(info.arch, Some("i386".to_string()));
}

#[test]
fn test_parse_path_pool_with_lib_prefix() {
    let info =
        DebianHandler::parse_path("pool/main/libo/libopenssl/libopenssl_3.0.0-1_amd64.deb")
            .unwrap();
    assert!(matches!(info.operation, DebianOperation::Package));
    assert_eq!(info.component, Some("main".to_string()));
}

#[test]
fn test_parse_path_direct_deb_file() {
    let info = DebianHandler::parse_path("nginx_1.24.0-1_amd64.deb").unwrap();
    assert!(matches!(info.operation, DebianOperation::Package));
    assert_eq!(info.package, Some("nginx".to_string()));
}

#[test]
fn test_parse_path_direct_udeb_file() {
    let info = DebianHandler::parse_path("base_1.0_amd64.udeb").unwrap();
    assert!(matches!(info.operation, DebianOperation::Package));
    assert_eq!(info.package, Some("base".to_string()));
}

#[test]
fn test_parse_path_leading_slash() {
    let info = DebianHandler::parse_path("/dists/jammy/Release").unwrap();
    assert!(matches!(info.operation, DebianOperation::Release));
}

#[test]
fn test_parse_path_invalid() {
    let result = DebianHandler::parse_path("some/random/path.txt");
    assert!(result.is_err());
}

#[test]
fn test_parse_path_release_no_dist_prefix() {
    // Path contains "/Release" but doesn't start with "dists/"
    let info = DebianHandler::parse_path("other/Release").unwrap();
    assert!(matches!(info.operation, DebianOperation::Release));
    assert!(info.distribution.is_none());
}

#[test]
fn test_parse_path_packages_short_path() {
    // Packages file but not enough path segments for dist/comp/arch
    let info = DebianHandler::parse_path("some/Packages").unwrap();
    assert!(matches!(info.operation, DebianOperation::Packages));
    assert!(info.distribution.is_none());
    assert!(info.component.is_none());
    assert!(info.arch.is_none());
}

// ========================================================================
// get_pool_prefix tests
// ========================================================================

#[test]
fn test_get_pool_prefix() {
    assert_eq!(DebianHandler::get_pool_prefix("nginx"), "n");
    assert_eq!(DebianHandler::get_pool_prefix("libc6"), "libc");
    assert_eq!(DebianHandler::get_pool_prefix("libssl3"), "libs");
}

#[test]
fn test_get_pool_prefix_short_lib() {
    // "lib" is only 3 chars, which is not > 4 in length, so just first char
    assert_eq!(DebianHandler::get_pool_prefix("lib"), "l");
}

#[test]
fn test_get_pool_prefix_liba() {
    // "liba" has length 4, not > 4, so just first char
    assert_eq!(DebianHandler::get_pool_prefix("liba"), "l");
}

#[test]
fn test_get_pool_prefix_libab() {
    // "libab" has length 5, which is > 4, so first 4 chars
    assert_eq!(DebianHandler::get_pool_prefix("libab"), "liba");
}

#[test]
fn test_get_pool_prefix_single_char() {
    assert_eq!(DebianHandler::get_pool_prefix("a"), "a");
}

#[test]
fn test_get_pool_prefix_empty() {
    // Empty string: chars().next() is None, so '_'
    assert_eq!(DebianHandler::get_pool_prefix(""), "_");
}

// ========================================================================
// get_pool_path tests
// ========================================================================

#[test]
fn test_get_pool_path_normal() {
    let path = DebianHandler::get_pool_path("main", "nginx", "nginx_1.24.0-1_amd64.deb");
    assert_eq!(path, "pool/main/n/nginx/nginx_1.24.0-1_amd64.deb");
}

#[test]
fn test_get_pool_path_lib_package() {
    let path = DebianHandler::get_pool_path("main", "libssl3", "libssl3_3.0.0-1_amd64.deb");
    assert_eq!(path, "pool/main/libs/libssl3/libssl3_3.0.0-1_amd64.deb");
}

#[test]
fn test_get_pool_path_universe_component() {
    let path = DebianHandler::get_pool_path("universe", "vim", "vim_9.0.1000-1_amd64.deb");
    assert_eq!(path, "pool/universe/v/vim/vim_9.0.1000-1_amd64.deb");
}

// ========================================================================
// parse_control tests
// ========================================================================

#[test]
fn test_parse_control() {
    let content = r#"Package: nginx
Version: 1.24.0-1
Architecture: amd64
Maintainer: Test <test@example.com>
Installed-Size: 1234
Depends: libc6 (>= 2.34), libpcre3
Section: web
Priority: optional
Description: High performance web server
"#;
    let control = DebianHandler::parse_control(content).unwrap();
    assert_eq!(control.package, "nginx");
    assert_eq!(control.version, "1.24.0-1");
    assert_eq!(control.architecture, "amd64");
    assert_eq!(control.depends.as_ref().map(|d| d.len()), Some(2));
}

#[test]
fn test_parse_control_missing_package() {
    let content = "Version: 1.0\nArchitecture: amd64\n";
    let result = DebianHandler::parse_control(content);
    assert!(result.is_err());
}

#[test]
fn test_parse_control_missing_version() {
    let content = "Package: pkg\nArchitecture: amd64\n";
    let result = DebianHandler::parse_control(content);
    assert!(result.is_err());
}

#[test]
fn test_parse_control_missing_architecture() {
    let content = "Package: pkg\nVersion: 1.0\n";
    let result = DebianHandler::parse_control(content);
    assert!(result.is_err());
}

#[test]
fn test_parse_control_empty() {
    let result = DebianHandler::parse_control("");
    assert!(result.is_err());
}

#[test]
fn test_parse_control_all_fields() {
    let content = r#"Package: full-pkg
Version: 2.0.0-1
Architecture: amd64
Maintainer: Admin <admin@example.com>
Installed-Size: 5678
Depends: libc6, libssl3
Pre-Depends: dpkg (>= 1.17.5)
Recommends: vim
Suggests: emacs
Conflicts: old-pkg
Provides: virtual-pkg
Replaces: old-pkg
Section: admin
Priority: important
Homepage: https://example.com
Description: A full package
Source: full-pkg-src
"#;
    let control = DebianHandler::parse_control(content).unwrap();
    assert_eq!(control.package, "full-pkg");
    assert_eq!(control.version, "2.0.0-1");
    assert_eq!(control.architecture, "amd64");
    assert_eq!(
        control.maintainer,
        Some("Admin <admin@example.com>".to_string())
    );
    assert_eq!(control.installed_size, Some(5678));
    assert_eq!(
        control.depends,
        Some(vec!["libc6".to_string(), "libssl3".to_string()])
    );
    assert_eq!(
        control.pre_depends,
        Some(vec!["dpkg (>= 1.17.5)".to_string()])
    );
    assert_eq!(control.recommends, Some(vec!["vim".to_string()]));
    assert_eq!(control.suggests, Some(vec!["emacs".to_string()]));
    assert_eq!(control.conflicts, Some(vec!["old-pkg".to_string()]));
    assert_eq!(control.provides, Some(vec!["virtual-pkg".to_string()]));
    assert_eq!(control.replaces, Some(vec!["old-pkg".to_string()]));
    assert_eq!(control.section, Some("admin".to_string()));
    assert_eq!(control.priority, Some("important".to_string()));
    assert_eq!(control.homepage, Some("https://example.com".to_string()));
    assert_eq!(control.description, Some("A full package".to_string()));
    assert_eq!(control.source, Some("full-pkg-src".to_string()));
}

#[test]
fn test_parse_control_continuation_lines() {
    let content = "Package: pkg\nVersion: 1.0\nArchitecture: amd64\nDescription: Short desc\n Extended description line 1\n Extended description line 2\n";
    let control = DebianHandler::parse_control(content).unwrap();
    assert!(control
        .description
        .as_ref()
        .unwrap()
        .contains("Short desc\nExtended description line 1\nExtended description line 2"));
}

#[test]
fn test_parse_control_tab_continuation() {
    let content =
        "Package: pkg\nVersion: 1.0\nArchitecture: amd64\nDescription: Desc\n\tMore desc\n";
    let control = DebianHandler::parse_control(content).unwrap();
    assert!(control.description.as_ref().unwrap().contains("More desc"));
}

#[test]
fn test_parse_control_unknown_fields_go_to_extra() {
    let content = "Package: pkg\nVersion: 1.0\nArchitecture: amd64\nX-Custom: custom-value\n";
    let control = DebianHandler::parse_control(content).unwrap();
    assert_eq!(
        control.extra.get("X-Custom"),
        Some(&"custom-value".to_string())
    );
}

#[test]
fn test_parse_control_installed_size_invalid() {
    let content =
        "Package: pkg\nVersion: 1.0\nArchitecture: amd64\nInstalled-Size: not-a-number\n";
    let control = DebianHandler::parse_control(content).unwrap();
    assert!(control.installed_size.is_none());
}

#[test]
fn test_parse_control_empty_depends() {
    let content = "Package: pkg\nVersion: 1.0\nArchitecture: amd64\nDepends: \n";
    let control = DebianHandler::parse_control(content).unwrap();
    // parse_dependency_list on empty string: split(',') gives [""], but filtered empty
    assert_eq!(control.depends, Some(vec![]));
}

#[test]
fn test_parse_control_multiple_depends() {
    let content = "Package: pkg\nVersion: 1.0\nArchitecture: amd64\nDepends: libc6, libm, libpthread, libdl\n";
    let control = DebianHandler::parse_control(content).unwrap();
    let deps = control.depends.unwrap();
    assert_eq!(deps.len(), 4);
    assert_eq!(deps[0], "libc6");
    assert_eq!(deps[3], "libdl");
}

// ========================================================================
// parse_dependency_list tests (indirectly)
// ========================================================================

#[test]
fn test_parse_dependency_list_with_versions() {
    let content = "Package: pkg\nVersion: 1.0\nArchitecture: amd64\nDepends: libc6 (>= 2.34), libssl3 (>= 3.0)\n";
    let control = DebianHandler::parse_control(content).unwrap();
    let deps = control.depends.unwrap();
    assert_eq!(deps.len(), 2);
    assert_eq!(deps[0], "libc6 (>= 2.34)");
    assert_eq!(deps[1], "libssl3 (>= 3.0)");
}

#[test]
fn test_parse_dependency_list_with_alternatives() {
    let content =
        "Package: pkg\nVersion: 1.0\nArchitecture: amd64\nDepends: editor | vim | nano\n";
    let control = DebianHandler::parse_control(content).unwrap();
    let deps = control.depends.unwrap();
    // No comma separation, so entire "editor | vim | nano" is one entry
    assert_eq!(deps.len(), 1);
    assert_eq!(deps[0], "editor | vim | nano");
}

// ========================================================================
// extract_control tests
// ========================================================================

#[test]
fn test_extract_control_invalid_ar_magic() {
    let result = DebianHandler::extract_control(b"not-an-ar-archive-at-all!!");
    assert!(result.is_err());
    let err_msg = result.unwrap_err().message().to_string();
    assert!(err_msg.contains("not an ar archive"));
}

#[test]
fn test_extract_control_too_short() {
    let result = DebianHandler::extract_control(b"short");
    assert!(result.is_err());
}

#[test]
fn test_extract_control_valid_magic_no_control() {
    // Valid ar magic but no control.tar inside
    let mut data = Vec::new();
    data.extend_from_slice(b"!<arch>\n");
    // Add a dummy member that is NOT control.tar
    // ar header: 60 bytes (name[16], mtime[12], uid[6], gid[6], mode[8], size[10], magic[2])
    let mut header = [b' '; 60];
    header[..12].copy_from_slice(b"debian-binar");
    // size = "0" padded
    header[48] = b'0';
    header[58] = b'`';
    header[59] = b'\n';
    data.extend_from_slice(&header);

    let result = DebianHandler::extract_control(&data);
    assert!(result.is_err());
    let err_msg = result.unwrap_err().message().to_string();
    assert!(err_msg.contains("control.tar not found"));
}

fn append_ar_member(out: &mut Vec<u8>, name: &str, content: &[u8]) {
    let header = format!(
        "{:<16}{:<12}{:<6}{:<6}{:<8}{:<10}`\n",
        name,
        0,
        0,
        0,
        "100644",
        content.len()
    );
    assert_eq!(header.len(), 60);
    out.extend_from_slice(header.as_bytes());
    out.extend_from_slice(content);
    if content.len() % 2 == 1 {
        out.push(b'\n');
    }
}

fn control_tar(control: &str) -> Vec<u8> {
    let mut builder = tar::Builder::new(Vec::new());
    let mut header = tar::Header::new_gnu();
    header.set_size(control.len() as u64);
    header.set_mode(0o644);
    header.set_cksum();
    builder
        .append_data(&mut header, "./control", control.as_bytes())
        .expect("append control");
    builder.finish().expect("finish tar");
    builder.into_inner().expect("tar bytes")
}

fn deb_with_control_member(member_name: &str, control_member: &[u8]) -> Vec<u8> {
    let mut data = Vec::new();
    data.extend_from_slice(b"!<arch>\n");
    append_ar_member(&mut data, "debian-binary", b"2.0\n");
    append_ar_member(&mut data, member_name, control_member);
    data
}

#[test]
fn test_extract_control_xz() {
    let control = "Package: xz-pkg\nVersion: 1.0-1\nArchitecture: amd64\n";
    let tar_bytes = control_tar(control);
    let mut encoder = xz2::write::XzEncoder::new(Vec::new(), 6);
    encoder.write_all(&tar_bytes).expect("write xz");
    let control_tar_xz = encoder.finish().expect("finish xz");
    let deb = deb_with_control_member("control.tar.xz", &control_tar_xz);

    let control = DebianHandler::extract_control(&deb).expect("extract xz control");
    assert_eq!(control.package, "xz-pkg");
    assert_eq!(control.version, "1.0-1");
    assert_eq!(control.architecture, "amd64");
}

// ========================================================================
// generate_packages_entry tests
// ========================================================================

#[test]
fn test_generate_packages_entry_basic() {
    let control = DebControl {
        package: "nginx".to_string(),
        version: "1.24.0-1".to_string(),
        architecture: "amd64".to_string(),
        maintainer: Some("Admin <admin@test.com>".to_string()),
        installed_size: Some(1024),
        depends: Some(vec!["libc6".to_string(), "libssl3".to_string()]),
        section: Some("web".to_string()),
        priority: Some("optional".to_string()),
        homepage: Some("https://nginx.org".to_string()),
        description: Some("Web server".to_string()),
        ..Default::default()
    };
    let entry = generate_packages_entry(
        &control,
        "pool/main/n/nginx/nginx_1.24.0-1_amd64.deb",
        2048,
        "md5hash",
        "sha256hash",
    );
    assert!(entry.contains("Package: nginx\n"));
    assert!(entry.contains("Version: 1.24.0-1\n"));
    assert!(entry.contains("Architecture: amd64\n"));
    assert!(entry.contains("Maintainer: Admin <admin@test.com>\n"));
    assert!(entry.contains("Installed-Size: 1024\n"));
    assert!(entry.contains("Depends: libc6, libssl3\n"));
    assert!(entry.contains("Section: web\n"));
    assert!(entry.contains("Priority: optional\n"));
    assert!(entry.contains("Homepage: https://nginx.org\n"));
    assert!(entry.contains("Description: Web server\n"));
    assert!(entry.contains("Filename: pool/main/n/nginx/nginx_1.24.0-1_amd64.deb\n"));
    assert!(entry.contains("Size: 2048\n"));
    assert!(entry.contains("MD5sum: md5hash\n"));
    assert!(entry.contains("SHA256: sha256hash\n"));
}

#[test]
fn test_generate_packages_entry_minimal() {
    let control = DebControl {
        package: "minimal".to_string(),
        version: "0.1".to_string(),
        architecture: "all".to_string(),
        ..Default::default()
    };
    let entry = generate_packages_entry(&control, "file.deb", 100, "md5", "sha");
    assert!(entry.contains("Package: minimal\n"));
    assert!(entry.contains("Version: 0.1\n"));
    assert!(entry.contains("Architecture: all\n"));
    assert!(!entry.contains("Maintainer:"));
    assert!(!entry.contains("Installed-Size:"));
    assert!(!entry.contains("Depends:"));
    assert!(!entry.contains("Section:"));
    assert!(!entry.contains("Priority:"));
    assert!(!entry.contains("Homepage:"));
    assert!(!entry.contains("Description:"));
}

#[test]
fn test_generate_packages_entry_empty_depends() {
    let control = DebControl {
        package: "pkg".to_string(),
        version: "1.0".to_string(),
        architecture: "amd64".to_string(),
        depends: Some(vec![]),
        ..Default::default()
    };
    let entry = generate_packages_entry(&control, "f.deb", 10, "m", "s");
    // Empty depends should not generate a Depends line
    assert!(!entry.contains("Depends:"));
}

// ========================================================================
// generate_release tests
// ========================================================================

#[test]
fn test_generate_release_basic() {
    let release = generate_release(
        "jammy",
        Some("jammy"),
        &["amd64".to_string(), "arm64".to_string()],
        &["main".to_string(), "universe".to_string()],
        vec![],
    );
    assert!(release.contains("Suite: jammy\n"));
    assert!(release.contains("Codename: jammy\n"));
    assert!(release.contains("Architectures: amd64 arm64\n"));
    assert!(release.contains("Components: main universe\n"));
    assert!(release.contains("Date:"));
    assert!(!release.contains("SHA256:"));
}

#[test]
fn test_generate_release_no_codename() {
    let release = generate_release(
        "stable",
        None,
        &["amd64".to_string()],
        &["main".to_string()],
        vec![],
    );
    assert!(release.contains("Suite: stable\n"));
    assert!(!release.contains("Codename:"));
}

#[test]
fn test_generate_release_with_hashes() {
    let hashes = vec![
        ReleaseHash {
            hash: "abc123".to_string(),
            size: 1024,
            path: "main/binary-amd64/Packages".to_string(),
        },
        ReleaseHash {
            hash: "def456".to_string(),
            size: 512,
            path: "main/binary-amd64/Packages.gz".to_string(),
        },
    ];
    let release = generate_release(
        "jammy",
        None,
        &["amd64".to_string()],
        &["main".to_string()],
        hashes,
    );
    assert!(release.contains("SHA256:\n"));
    assert!(release.contains(" abc123 1024 main/binary-amd64/Packages\n"));
    assert!(release.contains(" def456 512 main/binary-amd64/Packages.gz\n"));
}

#[test]
fn test_parse_release_with_hash_sections() {
    let content = "Origin: Artifact Keeper\nLabel: Artifact Keeper\nSuite: jammy\nCodename: jammy\nDate: Tue, 07 Jul 2026 12:00:00 UTC\nArchitectures: amd64 arm64\nComponents: main universe\nDescription: Test repo\nSHA256:\n abc123 1024 main/binary-amd64/Packages\n def456 512 universe/binary-arm64/Packages.gz\nSHA512:\n fedcba 256 main/binary-amd64/Packages.xz\nX-Extra: kept\n";

    let release = parse_release(content).unwrap();
    assert_eq!(release.suite, "jammy");
    assert_eq!(release.codename.as_deref(), Some("jammy"));
    assert_eq!(release.architectures, vec!["amd64", "arm64"]);
    assert_eq!(release.components, vec!["main", "universe"]);
    assert_eq!(release.sha256.len(), 2);
    assert_eq!(release.sha512[0].path, "main/binary-amd64/Packages.xz");
    assert_eq!(
        release.extra.get("X-Extra").map(String::as_str),
        Some("kept")
    );
}

#[test]
fn test_parse_in_release_clear_signed_payload() {
    let content = "-----BEGIN PGP SIGNED MESSAGE-----\nHash: SHA256\n\nSuite: jammy\nDate: Tue, 07 Jul 2026 12:00:00 UTC\nArchitectures: amd64\nComponents: main\nSHA256:\n abc123 42 main/binary-amd64/Packages\n-----BEGIN PGP SIGNATURE-----\nignored\n-----END PGP SIGNATURE-----\n";

    let release = parse_in_release(content).unwrap();
    assert_eq!(release.suite, "jammy");
    assert_eq!(release.sha256[0].size, 42);
}

#[test]
fn test_parse_release_gpg_armored() {
    let sig =
        parse_release_gpg(b"-----BEGIN PGP SIGNATURE-----\nabc\n-----END PGP SIGNATURE-----\n")
            .unwrap();
    assert!(sig.is_armored);
    assert!(sig.size > 0);
}

#[test]
fn test_generate_release_signatures_with_mock_signer() {
    let release = "Suite: jammy\nDate: Tue, 07 Jul 2026 12:00:00 UTC\nArchitectures: amd64\nComponents: main\n";
    let in_release = generate_in_release(&MockSigner, release).unwrap();
    assert!(in_release.contains("-----BEGIN PGP SIGNED MESSAGE-----"));
    assert!(in_release.contains("Suite: jammy"));

    let release_gpg = generate_release_gpg(&MockSigner, release).unwrap();
    assert!(release_gpg.starts_with(b"mock-detached:"));
    assert!(release_gpg.ends_with(release.as_bytes()));
}

#[test]
fn test_generate_release_signatures_reject_empty_release() {
    assert!(generate_in_release(&EchoSigner, " ").is_err());
    assert!(generate_release_gpg(&EchoSigner, "").is_err());
}

#[test]
fn test_parse_packages_index_gz() {
    let packages = "Package: nginx\nVersion: 1:1.24.0-1~ubuntu+1\nArchitecture: amd64\nDescription: Web server\n extended description\nFilename: pool/main/n/nginx/nginx_1:1.24.0-1~ubuntu+1_amd64.deb\nSize: 2048\nMD5sum: md5\nSHA1: sha1\nSHA256: sha256\n\n";
    let mut encoder = GzEncoder::new(Vec::new(), flate2::Compression::default());
    encoder.write_all(packages.as_bytes()).unwrap();
    let compressed = encoder.finish().unwrap();

    let parsed = parse_packages_index("main/binary-amd64/Packages.gz", &compressed).unwrap();
    assert_eq!(parsed.len(), 1);
    assert_eq!(parsed[0].control.package, "nginx");
    assert_eq!(parsed[0].control.version, "1:1.24.0-1~ubuntu+1");
    assert_eq!(
        parsed[0].control.description.as_deref(),
        Some("Web server\nextended description")
    );
    assert_eq!(
        parsed[0].filename.as_deref(),
        Some("pool/main/n/nginx/nginx_1:1.24.0-1~ubuntu+1_amd64.deb")
    );
    assert_eq!(parsed[0].size, Some(2048));
    assert_eq!(parsed[0].sha1.as_deref(), Some("sha1"));
    assert_eq!(parsed[0].sha256.as_deref(), Some("sha256"));
}

#[test]
fn test_parse_sources_index_preserves_hashes_and_unknown_fields() {
    let sources = "Package: nginx\nBinary: nginx\nVersion: 1.0-1\nMaintainer: Example Maintainer <maintainer@example.invalid>\nDirectory: pool/main/n/nginx\nFiles:\n md5dsc 11 nginx_1.0-1.dsc\n md5tar 22 nginx_1.0.orig.tar.xz\nChecksums-Sha1:\n sha1dsc 11 nginx_1.0-1.dsc\nChecksums-Sha256:\n sha256dsc 11 nginx_1.0-1.dsc\n sha256tar 22 nginx_1.0.orig.tar.xz\nChecksums-Sha512:\n sha512dsc 11 nginx_1.0-1.dsc\nX-Kept: yes\n\n";

    let parsed = parse_sources_index("main/source/Sources", sources.as_bytes()).unwrap();

    assert_eq!(parsed.len(), 1);
    assert_eq!(parsed[0].package, "nginx");
    assert_eq!(parsed[0].version, "1.0-1");
    assert_eq!(parsed[0].directory, "pool/main/n/nginx");
    assert_eq!(
        parsed[0].extra.get("Binary").map(String::as_str),
        Some("nginx")
    );
    assert_eq!(
        parsed[0].extra.get("X-Kept").map(String::as_str),
        Some("yes")
    );
    assert_eq!(parsed[0].files.len(), 2);
    assert!(parsed[0].files.iter().any(|file| {
        file.filename == "nginx_1.0-1.dsc"
            && file.size == 11
            && file.md5sum.as_deref() == Some("md5dsc")
            && file.sha1.as_deref() == Some("sha1dsc")
            && file.sha256.as_deref() == Some("sha256dsc")
            && file.sha512.as_deref() == Some("sha512dsc")
    }));
    assert!(parsed[0].files.iter().any(|file| {
        file.filename == "nginx_1.0.orig.tar.xz"
            && file.size == 22
            && file.md5sum.as_deref() == Some("md5tar")
            && file.sha256.as_deref() == Some("sha256tar")
    }));
}
#[test]
fn test_filter_release_package_indexes_by_component_and_architecture() {
    let release = parse_release("Suite: jammy\nDate: Tue, 07 Jul 2026 12:00:00 UTC\nArchitectures: amd64 arm64\nComponents: main universe\nSHA256:\n a 1 main/binary-amd64/Packages.xz\n b 1 main/binary-arm64/Packages.xz\n c 1 universe/binary-amd64/Packages.gz\n").unwrap();
    let filter = DebianSyncFilter {
        distributions: vec!["jammy".to_string()],
        components: vec!["main".to_string()],
        architectures: vec!["amd64".to_string()],
        include_source_packages: false,
    };

    let indexes = filter_release_package_indexes(&release, &filter);
    assert_eq!(
        indexes,
        vec![DebianIndexPath {
            component: "main".to_string(),
            architecture: "amd64".to_string(),
            path: "main/binary-amd64/Packages.xz".to_string(),
        }]
    );
}

#[test]
fn test_filter_release_package_indexes_prefers_one_compressed_representation() {
    let release = parse_release("Suite: bookworm\nDate: Tue, 07 Jul 2026 12:00:00 UTC\nArchitectures: amd64\nComponents: main\nSHA256:\n a 1 main/binary-amd64/Packages\n b 1 main/binary-amd64/Packages.gz\n c 1 main/binary-amd64/Packages.xz\n").unwrap();
    let indexes = filter_release_package_indexes(&release, &DebianSyncFilter::default());
    assert_eq!(indexes.len(), 1);
    assert_eq!(indexes[0].path, "main/binary-amd64/Packages.xz");
}

#[test]
fn test_filter_release_package_indexes_respects_distribution_filter() {
    let release = parse_release("Suite: stable\nCodename: bookworm\nDate: Tue, 07 Jul 2026 12:00:00 UTC\nArchitectures: amd64\nComponents: main\nSHA256:\n a 1 main/binary-amd64/Packages.xz\n").unwrap();
    let filter = DebianSyncFilter {
        distributions: vec!["jammy".to_string()],
        components: vec!["main".to_string()],
        architectures: vec!["amd64".to_string()],
        include_source_packages: false,
    };

    assert!(filter_release_package_indexes(&release, &filter).is_empty());

    let filter = DebianSyncFilter {
        distributions: vec!["bookworm".to_string()],
        components: vec!["main".to_string()],
        architectures: vec!["amd64".to_string()],
        include_source_packages: false,
    };
    assert_eq!(filter_release_package_indexes(&release, &filter).len(), 1);
}

#[test]
fn test_validate_release_filter_selection_rejects_missing_component() {
    let release = parse_release("Suite: jammy\nDate: Tue, 07 Jul 2026 12:00:00 UTC\nArchitectures: amd64\nComponents: main\n").unwrap();
    let filter = DebianSyncFilter {
        distributions: vec!["jammy".to_string()],
        components: vec!["universe".to_string()],
        architectures: vec!["amd64".to_string()],
        include_source_packages: false,
    };

    let err = validate_release_filter_selection(&release, &filter).unwrap_err();
    assert!(err
        .message()
        .contains("Selected Debian component(s) not advertised"));
}

#[test]
fn test_validate_release_filter_selection_rejects_missing_architecture() {
    let release = parse_release("Suite: jammy\nDate: Tue, 07 Jul 2026 12:00:00 UTC\nArchitectures: amd64\nComponents: main\n").unwrap();
    let filter = DebianSyncFilter {
        distributions: vec!["jammy".to_string()],
        components: vec!["main".to_string()],
        architectures: vec!["arm64".to_string()],
        include_source_packages: false,
    };

    let err = validate_release_filter_selection(&release, &filter).unwrap_err();
    assert!(err
        .message()
        .contains("Selected Debian architecture(s) not advertised"));
}
#[test]
fn test_filter_release_source_indexes_requires_source_flag() {
    let release = parse_release("Suite: jammy\nDate: Tue, 07 Jul 2026 12:00:00 UTC\nArchitectures: amd64\nComponents: main universe\nSHA256:\n a 1 main/source/Sources\n b 1 main/source/Sources.gz\n c 1 main/source/Sources.xz\n d 1 universe/source/Sources.xz\n").unwrap();
    let mut filter = DebianSyncFilter {
        distributions: vec!["jammy".to_string()],
        components: vec!["main".to_string()],
        architectures: vec!["amd64".to_string()],
        include_source_packages: false,
    };

    assert!(filter_release_source_indexes(&release, &filter).is_empty());

    filter.include_source_packages = true;
    let indexes = filter_release_source_indexes(&release, &filter);
    assert_eq!(
        indexes,
        vec![DebianSourceIndexPath {
            component: "main".to_string(),
            path: "main/source/Sources.xz".to_string(),
        }]
    );
}
#[test]
fn test_flat_release_indexes_are_selected_without_distribution_filter() {
    let release = parse_release("Suite: stable\nDate: Tue, 07 Jul 2026 12:00:00 UTC\nArchitectures: amd64\nSHA256:\n a 1 Packages\n b 1 Packages.gz\n c 1 Packages.xz\n d 1 Sources.xz\n").unwrap();
    let filter = DebianSyncFilter {
        distributions: Vec::new(),
        components: Vec::new(),
        architectures: vec!["amd64".to_string()],
        include_source_packages: true,
    };

    let package_indexes = filter_release_package_indexes(&release, &filter);
    assert_eq!(
        package_indexes,
        vec![DebianIndexPath {
            component: String::new(),
            architecture: String::new(),
            path: "Packages.xz".to_string(),
        }]
    );

    let source_indexes = filter_release_source_indexes(&release, &filter);
    assert_eq!(
        source_indexes,
        vec![DebianSourceIndexPath {
            component: String::new(),
            path: "Sources.xz".to_string(),
        }]
    );
}

#[test]
fn test_flat_metadata_paths_are_classified_as_debian_metadata() {
    assert!(is_debian_metadata_path("Release"));
    assert!(is_debian_metadata_path("Packages.xz"));
    assert!(is_debian_metadata_path("Sources.gz"));
    assert!(!is_debian_metadata_path(
        "pool/main/n/nginx/nginx_1.0_amd64.deb"
    ));
}
#[test]
fn test_flat_sync_index_filters_package_architectures() {
    assert!(package_matches_sync_index(
        "amd64",
        "",
        &["amd64".to_string()]
    ));
    assert!(package_matches_sync_index(
        "all",
        "",
        &["amd64".to_string()]
    ));
    assert!(!package_matches_sync_index(
        "arm64",
        "",
        &["amd64".to_string()]
    ));
}
#[test]
fn test_architecture_all_matches_selected_indexes() {
    assert!(package_matches_sync_architecture(
        "all",
        &["amd64".to_string()]
    ));
    assert!(package_matches_sync_architecture(
        "amd64",
        &["amd64".to_string()]
    ));
    assert!(!package_matches_sync_architecture(
        "arm64",
        &["amd64".to_string()]
    ));
}

fn packages_entry(
    package: &str,
    version: &str,
    architecture: &str,
    filename: &str,
) -> PackagesEntry {
    PackagesEntry {
        control: DebControl {
            package: package.to_string(),
            version: version.to_string(),
            architecture: architecture.to_string(),
            ..Default::default()
        },
        filename: Some(filename.to_string()),
        size: Some(128),
        md5sum: None,
        sha1: None,
        sha256: Some("sha256".to_string()),
    }
}

#[test]
fn test_build_debian_sync_plan_filters_indexes_and_package_files() {
    let release = parse_release("Suite: jammy\nDate: Tue, 07 Jul 2026 12:00:00 UTC\nArchitectures: amd64 arm64\nComponents: main universe\nSHA256:\n a 1 main/binary-amd64/Packages.xz\n b 1 main/binary-arm64/Packages.xz\n c 1 universe/binary-amd64/Packages.xz\n").unwrap();
    let filter = DebianSyncFilter {
        distributions: vec!["jammy".to_string()],
        components: vec!["main".to_string()],
        architectures: vec!["amd64".to_string(), "arm64".to_string()],
        include_source_packages: false,
    };
    let mut packages_by_index_path: TextMap<Vec<PackagesEntry>> = TextMap::new();
    packages_by_index_path.insert(
        "main/binary-amd64/Packages.xz".to_string(),
        vec![
            packages_entry(
                "nginx",
                "1.0",
                "amd64",
                "pool/main/n/nginx/nginx_1.0_amd64.deb",
            ),
            packages_entry("docs", "1.0", "all", "pool/main/d/docs/docs_1.0_all.deb"),
            packages_entry("bad", "1.0", "arm64", "pool/main/b/bad/bad_1.0_arm64.deb"),
        ],
    );
    packages_by_index_path.insert(
        "main/binary-arm64/Packages.xz".to_string(),
        vec![
            packages_entry(
                "nginx",
                "1.0",
                "arm64",
                "pool/main/n/nginx/nginx_1.0_arm64.deb",
            ),
            packages_entry("docs", "1.0", "all", "pool/main/d/docs/docs_1.0_all.deb"),
        ],
    );

    let plan = build_debian_sync_plan(
        "jammy",
        &release,
        &filter,
        &packages_by_index_path,
        &TextMap::new(),
        DebianSyncDownloadPolicy::OnDemand,
    );

    assert_eq!(
        plan.release_paths,
        vec![
            "dists/jammy/InRelease".to_string(),
            "dists/jammy/Release".to_string(),
            "dists/jammy/Release.gpg".to_string(),
        ]
    );
    assert_eq!(plan.package_indexes.len(), 2);
    assert!(plan.missing_package_indexes.is_empty());
    assert_eq!(plan.package_files.len(), 4);
    assert!(plan.package_files.iter().all(|file| !file.download));
    assert!(plan.package_files.iter().any(|file| {
        file.index_path == "main/binary-amd64/Packages.xz"
            && file.package == "docs"
            && file.architecture == "all"
    }));
    assert!(plan.package_files.iter().any(|file| {
        file.index_path == "main/binary-arm64/Packages.xz"
            && file.package == "docs"
            && file.architecture == "all"
    }));
    assert!(!plan.package_files.iter().any(|file| file.package == "bad"));
}

#[test]
fn test_build_debian_sync_plan_includes_source_files_when_enabled() {
    let release = parse_release("Suite: jammy\nDate: Tue, 07 Jul 2026 12:00:00 UTC\nArchitectures: amd64\nComponents: main\nSHA256:\n a 1 main/binary-amd64/Packages.xz\n b 1 main/source/Sources.xz\n").unwrap();
    let filter = DebianSyncFilter {
        distributions: vec!["jammy".to_string()],
        components: vec!["main".to_string()],
        architectures: vec!["amd64".to_string()],
        include_source_packages: true,
    };
    let packages_by_index_path: TextMap<Vec<PackagesEntry>> = TextMap::new();
    let mut sources_by_index_path: TextMap<Vec<SourcesEntry>> = TextMap::new();
    sources_by_index_path.insert(
        "main/source/Sources.xz".to_string(),
        vec![SourcesEntry {
            package: "nginx".to_string(),
            version: "1.0-1".to_string(),
            directory: "pool/main/n/nginx".to_string(),
            files: vec![SourceFileEntry {
                filename: "nginx_1.0-1.dsc".to_string(),
                size: 11,
                md5sum: Some("md5dsc".to_string()),
                sha1: None,
                sha256: Some("sha256dsc".to_string()),
                sha512: None,
            }],
            extra: TextMap::new(),
        }],
    );

    let plan = build_debian_sync_plan(
        "jammy",
        &release,
        &filter,
        &packages_by_index_path,
        &sources_by_index_path,
        DebianSyncDownloadPolicy::Immediate,
    );

    assert_eq!(plan.source_indexes.len(), 1);
    assert_eq!(
        plan.missing_package_indexes,
        vec!["main/binary-amd64/Packages.xz".to_string()]
    );
    assert!(plan.missing_source_indexes.is_empty());
    assert_eq!(plan.source_files.len(), 1);
    assert_eq!(
        plan.source_files[0].filename,
        "pool/main/n/nginx/nginx_1.0-1.dsc"
    );
    assert!(plan.source_files[0].download);
}
#[test]
fn test_build_debian_sync_plan_marks_immediate_downloads_and_missing_indexes() {
    let release = parse_release("Suite: bookworm\nDate: Tue, 07 Jul 2026 12:00:00 UTC\nArchitectures: amd64\nComponents: main\nSHA256:\n a 1 main/binary-amd64/Packages.gz\n").unwrap();
    let filter = DebianSyncFilter {
        distributions: vec!["bookworm".to_string()],
        components: vec!["main".to_string()],
        architectures: vec!["amd64".to_string()],
        include_source_packages: false,
    };
    let packages_by_index_path: TextMap<Vec<PackagesEntry>> = TextMap::new();

    let plan = build_debian_sync_plan(
        "bookworm",
        &release,
        &filter,
        &packages_by_index_path,
        &TextMap::new(),
        DebianSyncDownloadPolicy::from_label(Some("immediate")),
    );

    assert_eq!(
        plan.missing_package_indexes,
        vec!["main/binary-amd64/Packages.gz".to_string()]
    );
    assert!(plan.package_files.is_empty());
    assert_eq!(
        DebianSyncDownloadPolicy::from_label(Some("on_demand")),
        DebianSyncDownloadPolicy::OnDemand
    );
    assert_eq!(
        DebianSyncDownloadPolicy::from_label(Some("full-mirror")),
        DebianSyncDownloadPolicy::Immediate
    );
}

#[test]
fn test_debian_cache_decision_logic() {
    assert_eq!(
        decide_debian_cache_action(DebianCacheDecisionInput {
            path: "pool/main/n/nginx/nginx_1.0_amd64.deb",
            upstream_success: true,
            cached_locally: true,
            cache_stale: false,
            checksum_matches: true,
        }),
        DebianCacheAction::ServeCached
    );
    assert_eq!(
        decide_debian_cache_action(DebianCacheDecisionInput {
            path: "dists/jammy/Release",
            upstream_success: true,
            cached_locally: true,
            cache_stale: true,
            checksum_matches: false,
        }),
        DebianCacheAction::Revalidate
    );
    assert_eq!(
        decide_debian_cache_action(DebianCacheDecisionInput {
            path: "dists/jammy/main/binary-amd64/Packages.gz",
            upstream_success: true,
            cached_locally: true,
            cache_stale: false,
            checksum_matches: false,
        }),
        DebianCacheAction::ServeCached
    );
    assert_eq!(
        decide_debian_cache_action(DebianCacheDecisionInput {
            path: "dists/jammy/Release",
            upstream_success: false,
            cached_locally: false,
            cache_stale: false,
            checksum_matches: false,
        }),
        DebianCacheAction::DoNotCache
    );
}

#[test]
fn test_malformed_release_returns_error() {
    assert!(parse_release("Suite: jammy\n").is_err());
}

// ========================================================================
// DebianHandler::new / Default tests
// ========================================================================

#[test]
fn test_debian_handler_new() {
    let _handler = DebianHandler::new();
}

#[test]
fn test_debian_handler_default() {
    let _handler = DebianHandler;
}

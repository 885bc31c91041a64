//! Uploads of package files.

use vstd::prelude::*;

use crate::control::{copy_text, ControlModel, DebControl};
use crate::deb::{deb_control, extracted_control_is_complete, pool_path, pool_prefix, DebianHandler};
use crate::error::{failure_text, Failure};
use crate::hosted::{belongs_in, deb_info, file_name, file_name_of, hosted_entry, parse_deb_filename};
use crate::hosted::{DebInfo, DebInfoModel, HostedModel, RowModel};
use crate::http::{refuse, refuse2, refused, verdict, Refusal, RefusalModel};
use crate::text::{ascii_lower, cat3, cat4, cat5, chars_of, contains_text, find_text, find_text_of, holds_text, is_blank, is_blank_text};
use crate::text::{opt_text, same_ignoring_ascii_case, same_text, split_tail, starts_with, text_of, trim, trim_char, trim_char_of, trim_of};
use crate::verify::filled;

verus! {

/// The headers of an upload. A value that is not made of visible ASCII
/// characters is not kept, only that it was there.
#[derive(Debug)]
pub struct UploadHeaders {
    entries: Vec<(String, Option<String>)>,
}

/// What is stored with an uploaded package.
#[derive(Debug)]
pub struct UploadMetadata {
    pub distribution: Option<String>,
    pub component: String,
    pub filename: String,
    pub path: String,
    pub package_type: String,
    pub section: Option<String>,
    pub control: DebControl,
}

/// What a package catalog is told of an uploaded package.
#[derive(Debug, PartialEq, Eq)]
pub struct CatalogMetadata {
    pub architecture: String,
    pub distribution: Option<String>,
    pub component: String,
    pub package_type: String,
    pub section: Option<String>,
    pub priority: Option<String>,
    pub maintainer: Option<String>,
    pub homepage: Option<String>,
    pub source: Option<String>,
}

/// An upload that may be stored.
#[derive(Debug)]
pub struct DebianPackageUpload {
    pub artifact_path: String,
    pub distribution: Option<String>,
    pub component: String,
    pub deb_info: DebInfo,
    pub control: DebControl,
    pub metadata: UploadMetadata,
}

/// What the uploader is told.
#[derive(Debug, PartialEq, Eq)]
pub struct UploadReceipt {
    pub package: String,
    pub version: String,
    pub architecture: String,
    pub distribution: Option<String>,
    pub component: String,
    pub path: String,
    pub sha256: String,
    pub size: i64,
}

// ---------------------------------------------------------------------------
// Model
// ---------------------------------------------------------------------------

impl DeepView for UploadHeaders {
    type V = Seq<(Seq<char>, Option<Seq<char>>)>;

    closed spec fn deep_view(&self) -> Seq<(Seq<char>, Option<Seq<char>>)> {
        self.entries.deep_view()
    }
}

/// Every character is an ASCII character.
pub open spec fn is_ascii_text(s: Seq<char>) -> bool {
    forall|i: int| 0 <= i < s.len() ==> (#[trigger] s[i]) < '\u{80}'
}

/// Every value that was kept is made of ASCII characters.
pub open spec fn ascii_values(headers: Seq<(Seq<char>, Option<Seq<char>>)>) -> bool {
    forall|i: int|
        0 <= i < headers.len() ==> ((#[trigger] headers[i]).1 matches Some(value) ==> is_ascii_text(
            value,
        ))
}

/// The byte is that of a visible ASCII character, a space or a tab.
pub open spec fn is_visible(b: u8) -> bool {
    (32 <= b && b < 127) || b == 9
}

/// The text that the bytes of a header are, where all of them are visible.
pub open spec fn visible_text(value: Seq<u8>) -> Option<Seq<char>> {
    if forall|i: int| 0 <= i < value.len() ==> is_visible(#[trigger] value[i]) {
        Some(value.map_values(|b: u8| b as char))
    } else {
        None
    }
}

/// The position of a header, its name compared without regard to case, or the
/// number of headers.
pub open spec fn header_slot(headers: Seq<(Seq<char>, Option<Seq<char>>)>, name: Seq<char>) -> nat
    decreases headers.len(),
{
    if headers.len() == 0 || ascii_lower(headers[0].0) == ascii_lower(name) {
        0
    } else {
        1 + header_slot(headers.drop_first(), name)
    }
}

/// The value of a header: none where it is not there, and none inside where its
/// value was not kept.
pub open spec fn header_value(headers: Seq<(Seq<char>, Option<Seq<char>>)>, name: Seq<char>) -> Option<
    Option<Seq<char>>,
> {
    let i = header_slot(headers, name) as int;
    if i < headers.len() {
        Some(headers[i].1)
    } else {
        None
    }
}

/// The text of a header, where it is there and was kept.
pub open spec fn header_text(headers: Seq<(Seq<char>, Option<Seq<char>>)>, name: Seq<char>) -> Option<
    Seq<char>,
> {
    match header_value(headers, name) {
        Some(value) => value,
        None => None,
    }
}

/// The character may stand in an identifier.
pub open spec fn is_identifier_char(c: char) -> bool {
    ('a' <= c <= 'z') || ('A' <= c <= 'Z') || ('0' <= c <= '9') || c == '-' || c == '_' || c == '.'
        || c == '+'
}

/// The text is an identifier of at most 128 characters.
pub open spec fn is_identifier(s: Seq<char>) -> bool {
    s.len() <= 128 && forall|i: int| 0 <= i < s.len() ==> is_identifier_char(#[trigger] s[i])
}

/// What a metadata header of an upload says: the first of the names that is
/// there counts, and has to hold an identifier.
pub open spec fn upload_header(
    headers: Seq<(Seq<char>, Option<Seq<char>>)>,
    names: Seq<Seq<char>>,
) -> std::result::Result<Option<Seq<char>>, RefusalModel>
    decreases names.len(),
{
    if names.len() == 0 {
        Ok(None)
    } else {
        match header_value(headers, names[0]) {
            None => upload_header(headers, names.drop_first()),
            Some(None) => Err(
                refused(400, "Invalid Debian upload metadata header "@ + names[0]),
            ),
            Some(Some(value)) => if trim(value).len() == 0 {
                Err(
                    refused(
                        400,
                        "Debian upload metadata header "@ + names[0] + " must not be empty"@,
                    ),
                )
            } else if !is_identifier(trim(value)) {
                Err(
                    refused(
                        400,
                        "Debian upload metadata header "@ + names[0]
                            + " contains an invalid identifier"@,
                    ),
                )
            } else {
                Ok(Some(trim(value)))
            },
        }
    }
}

/// The headers that name a distribution.
pub open spec fn distribution_headers() -> Seq<Seq<char>> {
    seq!["X-Debian-Distribution"@, "X-Debian-Codename"@, "X-Debian-Suite"@, "X-Distribution"@]
}

/// The headers that name a component.
pub open spec fn component_headers() -> Seq<Seq<char>> {
    seq!["X-Debian-Component"@, "X-Component"@]
}

/// The headers that name an architecture.
pub open spec fn architecture_headers() -> Seq<Seq<char>> {
    seq!["X-Debian-Architecture"@, "X-Architecture"@]
}

/// What an `UploadMetadata` holds.
#[verifier::ext_equal]
pub struct UploadMetadataModel {
    pub distribution: Option<Seq<char>>,
    pub component: Seq<char>,
    pub filename: Seq<char>,
    pub path: Seq<char>,
    pub package_type: Seq<char>,
    pub section: Option<Seq<char>>,
    pub control: ControlModel,
}

impl DeepView for UploadMetadata {
    type V = UploadMetadataModel;

    open spec fn deep_view(&self) -> UploadMetadataModel {
        UploadMetadataModel {
            distribution: self.distribution.deep_view(),
            component: self.component@,
            filename: self.filename@,
            path: self.path@,
            package_type: self.package_type@,
            section: self.section.deep_view(),
            control: self.control.deep_view(),
        }
    }
}

/// What a `DebianPackageUpload` holds.
#[verifier::ext_equal]
pub struct UploadModel {
    pub artifact_path: Seq<char>,
    pub distribution: Option<Seq<char>>,
    pub component: Seq<char>,
    pub deb_info: DebInfoModel,
    pub control: ControlModel,
    pub metadata: UploadMetadataModel,
}

impl DeepView for DebianPackageUpload {
    type V = UploadModel;

    open spec fn deep_view(&self) -> UploadModel {
        UploadModel {
            artifact_path: self.artifact_path@,
            distribution: self.distribution.deep_view(),
            component: self.component@,
            deb_info: self.deb_info.deep_view(),
            control: self.control.deep_view(),
            metadata: self.metadata.deep_view(),
        }
    }
}

/// The package belongs to the installer.
pub open spec fn is_installer(component: Seq<char>, path: Seq<char>) -> bool {
    component == "debian-installer"@ || contains_text(path, "/debian-installer/"@)
        || contains_text(component, "debian-installer"@)
}

/// The kind of a package; packages of the installer are always of one kind.
pub open spec fn stored_type(installer: bool, package_type: Seq<char>) -> Seq<char> {
    if installer {
        "udeb"@
    } else {
        package_type
    }
}

/// The section of a package; packages of the installer are always in one section.
pub open spec fn stored_section(installer: bool, section: Option<Seq<char>>) -> Option<Seq<char>> {
    if installer {
        Some("debian-installer"@)
    } else {
        section
    }
}

/// What is stored with an uploaded package.
pub open spec fn artifact_metadata(
    distribution: Option<Seq<char>>,
    component: Seq<char>,
    path: Seq<char>,
    filename: Seq<char>,
    package_type: Seq<char>,
    control: ControlModel,
) -> UploadMetadataModel {
    let installer = is_installer(component, path);
    UploadMetadataModel {
        distribution,
        component,
        filename,
        path,
        package_type: stored_type(installer, package_type),
        section: stored_section(installer, control.section),
        control,
    }
}

/// The complaint that two places disagree.
pub open spec fn disagreement(
    what: Seq<char>,
    first_place: Seq<char>,
    first: Seq<char>,
    second: Seq<char>,
) -> RefusalModel {
    refused(
        400,
        what + " mismatch: "@ + first_place + " says '"@ + first + "' but control says '"@ + second
            + "'"@,
    )
}

/// Whether the name of a package file and its control stanza agree.
pub open spec fn filename_agreement(info: DebInfoModel, control: ControlModel) -> std::result::Result<
    (),
    RefusalModel,
> {
    if control.package != info.name {
        Err(disagreement("Package name"@, "filename"@, info.name, control.package))
    } else if control.version != info.version {
        Err(disagreement("Version"@, "filename"@, info.version, control.version))
    } else if control.architecture != info.arch {
        Err(disagreement("Architecture"@, "filename"@, info.arch, control.architecture))
    } else {
        Ok(())
    }
}

/// Whether an expected architecture and a control stanza agree.
pub open spec fn architecture_agreement(expected: Option<Seq<char>>, control: ControlModel) -> std::result::Result<
    (),
    RefusalModel,
> {
    match expected {
        Some(arch) => if arch != control.architecture {
            Err(disagreement("Architecture"@, "upload metadata"@, arch, control.architecture))
        } else {
            Ok(())
        },
        None => Ok(()),
    }
}

/// The refusal of a file that is not named like a package.
pub open spec fn bad_filename() -> RefusalModel {
    refused(400, "Invalid Debian package filename. Expected {name}_{version}_{arch}.deb"@)
}

/// What becomes of an upload to a path in a component: the name of the file, its
/// control stanza and the expected architecture have to agree.
pub open spec fn prepared(
    component: Seq<char>,
    path: Seq<char>,
    body: Seq<u8>,
    distribution: Option<Seq<char>>,
    expected: Option<Seq<char>>,
) -> std::result::Result<UploadModel, RefusalModel> {
    let filename = file_name(path);
    match deb_info(filename) {
        None => Err(bad_filename()),
        Some(info) => match deb_control(body) {
            Err(failure) => Err(
                refused(400, "Invalid Debian package metadata: "@ + failure_text(failure)),
            ),
            Ok(control) => if filename_agreement(info, control) is Err {
                Err(filename_agreement(info, control)->Err_0)
            } else if architecture_agreement(expected, control) is Err {
                Err(architecture_agreement(expected, control)->Err_0)
            } else {
                let artifact_path = "pool/"@ + component + "/"@ + path;
                Ok(
                    UploadModel {
                        artifact_path,
                        distribution,
                        component,
                        deb_info: info,
                        control,
                        metadata: artifact_metadata(
                            distribution,
                            component,
                            artifact_path,
                            filename,
                            info.package_type,
                            control,
                        ),
                    },
                )
            },
        },
    }
}

/// Whether the component of a path and that of a header agree.
pub open spec fn component_agreement(route: Seq<char>, header: Option<Seq<char>>) -> std::result::Result<
    (),
    RefusalModel,
> {
    match header {
        Some(component) => if route != component {
            Err(
                refused(
                    400,
                    "Component mismatch: path says '"@ + route
                        + "' but upload metadata says '"@ + component + "'"@,
                ),
            )
        } else {
            Ok(())
        },
        None => Ok(()),
    }
}

/// What becomes of an upload to a path in the pool.
pub open spec fn pool_upload(
    headers: Seq<(Seq<char>, Option<Seq<char>>)>,
    component: Seq<char>,
    path: Seq<char>,
    body: Seq<u8>,
) -> std::result::Result<UploadModel, RefusalModel> {
    match upload_header(headers, distribution_headers()) {
        Err(refusal) => Err(refusal),
        Ok(distribution) => match upload_header(headers, component_headers()) {
            Err(refusal) => Err(refusal),
            Ok(header) => match component_agreement(component, header) {
                Err(refusal) => Err(refusal),
                Ok(()) => match upload_header(headers, architecture_headers()) {
                    Err(refusal) => Err(refusal),
                    Ok(expected) => prepared(component, path, body, distribution, expected),
                },
            },
        },
    }
}

/// The text between the first `filename=` and the next, without quotes.
pub open spec fn disposition_filename(value: Seq<char>) -> Option<Seq<char>> {
    match find_text(value, "filename="@) {
        Some(n) => {
            let rest = value.skip(n as int + "filename="@.len());
            let piece = match find_text(rest, "filename="@) {
                Some(m) => rest.take(m as int),
                None => rest,
            };
            Some(trim_char(trim_char(piece, '"'), '\''))
        },
        None => None,
    }
}

/// The filename that the headers of an upload without a path give.
pub open spec fn raw_filename(headers: Seq<(Seq<char>, Option<Seq<char>>)>) -> std::result::Result<
    Seq<char>,
    RefusalModel,
> {
    let missing = refused(
        400,
        "Missing filename. Provide X-Filename header or Content-Disposition with filename"@,
    );
    match header_text(headers, "X-Filename"@) {
        Some(filename) => Ok(filename),
        None => match header_text(headers, "Content-Disposition"@) {
            Some(value) => match disposition_filename(value) {
                Some(filename) => Ok(filename),
                None => Err(missing),
            },
            None => Err(missing),
        },
    }
}

/// What becomes of an upload without a path: it is filed in the pool by the name
/// of its file.
pub open spec fn raw_upload(headers: Seq<(Seq<char>, Option<Seq<char>>)>, body: Seq<u8>) -> std::result::Result<
    UploadModel,
    RefusalModel,
> {
    match raw_filename(headers) {
        Err(refusal) => Err(refusal),
        Ok(filename) => match deb_info(filename) {
            None => Err(bad_filename()),
            Some(info) => match upload_header(headers, component_headers()) {
                Err(refusal) => Err(refusal),
                Ok(header) => match upload_header(headers, distribution_headers()) {
                    Err(refusal) => Err(refusal),
                    Ok(distribution) => match upload_header(headers, architecture_headers()) {
                        Err(refusal) => Err(refusal),
                        Ok(expected) => prepared(
                            match header {
                                Some(component) => component,
                                None => "main"@,
                            },
                            pool_prefix(info.name) + "/"@ + info.name + "/"@ + filename,
                            body,
                            distribution,
                            expected,
                        ),
                    },
                },
            },
        },
    }
}

// ---------------------------------------------------------------------------
// Laws
// ---------------------------------------------------------------------------

/// An upload that is accepted says one thing throughout: the name of its file,
/// its control stanza and the expected architecture agree, and it is filed under
/// its component.
pub proof fn accepted_upload_agrees(
    component: Seq<char>,
    path: Seq<char>,
    body: Seq<u8>,
    distribution: Option<Seq<char>>,
    expected: Option<Seq<char>>,
)
    ensures
        prepared(component, path, body, distribution, expected) matches Ok(upload) ==> {
            &&& upload.deb_info.name == upload.control.package
            &&& upload.deb_info.version == upload.control.version
            &&& upload.deb_info.arch == upload.control.architecture
            &&& expected matches Some(arch) ==> arch == upload.control.architecture
            &&& upload.artifact_path == "pool/"@ + component + "/"@ + path
            &&& upload.metadata.control == upload.control
            &&& deb_control(body) == Ok::<ControlModel, Failure>(upload.control)
        },
{
}

/// An upload without a path that is accepted is filed where a package of its
/// name belongs in the pool.
pub proof fn raw_upload_is_filed_by_name(
    headers: Seq<(Seq<char>, Option<Seq<char>>)>,
    body: Seq<u8>,
)
    ensures
        raw_upload(headers, body) matches Ok(upload) ==> (raw_filename(headers) matches Ok(
            filename,
        ) && deb_info(filename) matches Some(info) && upload.artifact_path == pool_path(
            upload.component,
            info.name,
            filename,
        )),
{
    if let Ok(filename) = raw_filename(headers) {
        if let Some(info) = deb_info(filename) {
            if let Ok(upload) = raw_upload(headers, body) {
                let c = upload.component;
                assert("pool/"@ + c + "/"@ + (pool_prefix(info.name) + "/"@ + info.name + "/"@
                    + filename) =~= pool_path(c, info.name, filename));
            }
        }
    }
}

/// The row of a stored package is that of an upload: it has the path of the
/// upload, and its control stanza and distribution.
pub open spec fn holds_upload(row: RowModel, upload: UploadModel) -> bool {
    &&& row.path == upload.artifact_path
    &&& row.metadata is Some
    &&& row.metadata->0.control == Some(upload.metadata.control)
    &&& row.metadata->0.distribution == upload.metadata.distribution
}

/// A package that was uploaded, and stored with what is known of it, is listed:
/// in each index of its distribution and architecture and in no other, under the
/// path at which it is filed, with the control stanza that it came with.
pub proof fn uploaded_package_is_listed(
    component: Seq<char>,
    path: Seq<char>,
    body: Seq<u8>,
    distribution: Option<Seq<char>>,
    expected: Option<Seq<char>>,
    row: RowModel,
    requested: Seq<char>,
    arch: Seq<char>,
)
    requires
        prepared(component, path, body, distribution, expected) matches Ok(upload) && holds_upload(
            row,
            upload,
        ),
    ensures
        deb_control(body) matches Ok(control) && hosted_entry(row, requested, arch) == if (filled(
            distribution,
        ) is None || filled(distribution) == Some(requested)) && belongs_in(
            control.architecture,
            arch,
        ) {
            Some(
                HostedModel {
                    control,
                    filename: "pool/"@ + component + "/"@ + path,
                    size: row.size,
                    sha256: row.sha256,
                    sha1: row.sha1,
                    md5: row.md5,
                },
            )
        } else {
            None
        },
{
    reveal_strlit("/");
    extracted_control_is_complete(body);
    let front = "pool/"@ + component;
    assert("pool/"@ + component + "/"@ + path =~= front + seq!['/'] + path);
    split_tail(front, path, '/');
}

/// What a metadata header gives is always an identifier: it is not empty, and
/// it holds no slash.
pub proof fn header_gives_identifier(
    headers: Seq<(Seq<char>, Option<Seq<char>>)>,
    names: Seq<Seq<char>>,
)
    ensures
        upload_header(headers, names) matches Ok(Some(value)) ==> value.len() > 0 && is_identifier(
            value,
        ) && !value.contains('/'),
    decreases names.len(),
{
    if names.len() > 0 {
        header_gives_identifier(headers, names.drop_first());
        if let Some(Some(value)) = header_value(headers, names[0]) {
            let name = trim(value);
            if is_identifier(name) && name.contains('/') {
                let i = choose|i: int| 0 <= i < name.len() && name[i] == '/';
                assert(is_identifier_char(name[i]));
            }
        }
    }
}

// ---------------------------------------------------------------------------
// Headers
// ---------------------------------------------------------------------------

/// The text that the bytes of a header are, where all of them are visible.
fn text_of_visible(value: &[u8]) -> (r: Option<String>)
    ensures
        r.deep_view() == visible_text(value@),
        r matches Some(text) ==> is_ascii_text(text@),
{
    let mut chars: Vec<char> = Vec::new();
    let ghost all = value@.map_values(|b: u8| b as char);
    for i in 0..value.len()
        invariant
            all == value@.map_values(|b: u8| b as char),
            chars@ == all.take(i as int),
            forall|j: int| 0 <= j < i ==> is_visible(#[trigger] value@[j]),
            is_ascii_text(chars@),
    {
        let b = value[i];
        if !((32 <= b && b < 127) || b == 9) {
            assert(!is_visible(value@[i as int]));
            return None;
        }
        let ghost before = chars@;
        chars.push(b as char);
        assert(chars@ =~= before.push(all[i as int]));
        assert(all.take(i + 1) =~= before.push(all[i as int]));
    }
    assert(all.take(all.len() as int) =~= all);
    Some(text_of(chars.as_slice()))
}

proof fn header_slot_is(headers: Seq<(Seq<char>, Option<Seq<char>>)>, name: Seq<char>, n: int)
    requires
        0 <= n <= headers.len(),
        n < headers.len() ==> ascii_lower(headers[n].0) == ascii_lower(name),
        forall|i: int| 0 <= i < n ==> ascii_lower((#[trigger] headers[i]).0) != ascii_lower(name),
    ensures
        header_slot(headers, name) == n,
    decreases headers.len(),
{
    if headers.len() > 0 && n > 0 {
        assert(ascii_lower(headers[0].0) != ascii_lower(name));
        let t = headers.drop_first();
        assert forall|i: int| 0 <= i < n - 1 implies ascii_lower((#[trigger] t[i]).0)
            != ascii_lower(name) by {
            assert(t[i] == headers[i + 1]);
        }
        header_slot_is(t, name, n - 1);
    }
}

impl UploadHeaders {
    #[verifier::type_invariant]
    closed spec fn well_formed(self) -> bool {
        ascii_values(self.entries.deep_view())
    }

    /// No headers.
    pub fn new() -> (r: Self)
        ensures
            r.deep_view() == Seq::<(Seq<char>, Option<Seq<char>>)>::empty(),
    {
        let entries: Vec<(String, Option<String>)> = Vec::new();
        assert(entries.deep_view() =~= Seq::<(Seq<char>, Option<Seq<char>>)>::empty());
        UploadHeaders { entries }
    }

    /// Sets a header, in place of one of that name.
    pub fn insert(&mut self, name: &str, value: &[u8])
        ensures
            final(self).deep_view() == ({
                let before = old(self).deep_view();
                let i = header_slot(before, name@) as int;
                if i < before.len() {
                    before.update(i, (name@, visible_text(value@)))
                } else {
                    before.push((name@, visible_text(value@)))
                }
            }),
    {
        proof {
            use_type_invariant(&*self);
        }
        let ghost before = self.entries.deep_view();
        let text = text_of_visible(value);
        let ghost entry = (name@, visible_text(value@));
        let i = self.find(name);
        let mut entries: Vec<(String, Option<String>)> = Vec::new();
        assert(entries.deep_view() =~= Seq::<(Seq<char>, Option<Seq<char>>)>::empty());
        let ghost kept = text.deep_view();
        assert(kept matches Some(t) ==> is_ascii_text(t));
        std::mem::swap(&mut entries, &mut self.entries);
        if i < entries.len() {
            entries.remove(i);
            entries.insert(i, (name.to_string(), text));
            assert(entries.deep_view() =~= before.update(i as int, entry));
        } else {
            entries.push((name.to_string(), text));
            assert(entries.deep_view() =~= before.push(entry));
        }
        assert(ascii_values(entries.deep_view()));
        self.entries = entries;
    }

    /// The position of a header.
    fn find(&self, name: &str) -> (r: usize)
        ensures
            r == header_slot(self.deep_view(), name@),
            r <= self.entries.len(),
    {
        let ghost all = self.entries.deep_view();
        let mut i: usize = 0;
        while i < self.entries.len() && !same_ignoring_ascii_case(self.entries[i].0.as_str(), name)
            invariant
                i <= self.entries.len(),
                all == self.entries.deep_view(),
                forall|j: int|
                    0 <= j < i ==> ascii_lower((#[trigger] all[j]).0) != ascii_lower(name@),
            decreases self.entries.len() - i,
        {
            assert(all[i as int].0 == self.entries[i as int].0@);
            i += 1;
        }
        proof {
            if i < self.entries.len() {
                assert(all[i as int].0 == self.entries[i as int].0@);
            }
            header_slot_is(all, name@, i as int);
        }
        i
    }

    /// The value of a header: none where it is not there, and none inside where
    /// its value was not kept.
    pub fn get(&self, name: &str) -> (r: Option<Option<&str>>)
        ensures
            (match r {
                Some(value) => Some(opt_text(value)),
                None => None,
            }) == header_value(self.deep_view(), name@),
            r matches Some(Some(text)) ==> is_ascii_text(text@),
    {
        proof {
            use_type_invariant(self);
        }
        let i = self.find(name);
        if i < self.entries.len() {
            assert(self.entries.deep_view()[i as int].1 == self.entries[i as int].1.deep_view());
            match &self.entries[i].1 {
                Some(text) => Some(Some(text.as_str())),
                None => Some(None),
            }
        } else {
            None
        }
    }

    /// The text of a header, where it is there and was kept.
    pub fn text(&self, name: &str) -> (r: Option<&str>)
        ensures
            opt_text(r) == header_text(self.deep_view(), name@),
            r matches Some(text) ==> is_ascii_text(text@),
    {
        match self.get(name) {
            Some(value) => value,
            None => None,
        }
    }
}

/// The text is an identifier.
fn holds_identifier(s: &[char]) -> (r: bool)
    ensures
        r == is_identifier(s@),
{
    if s.len() > 128 {
        return false;
    }
    let mut i: usize = 0;
    while i < s.len()
        invariant
            i <= s.len() <= 128,
            forall|j: int| 0 <= j < i ==> is_identifier_char(#[trigger] s@[j]),
        decreases s.len() - i,
    {
        let c = s[i];
        if !(('a' <= c && c <= 'z') || ('A' <= c && c <= 'Z') || ('0' <= c && c <= '9') || c == '-'
            || c == '_' || c == '.' || c == '+') {
            assert(!is_identifier_char(s@[i as int]));
            return false;
        }
        i += 1;
    }
    true
}

/// The texts of the names.
pub open spec fn name_texts(names: Seq<&str>) -> Seq<Seq<char>> {
    names.map_values(|name: &str| name@)
}

/// Reads a metadata header of an upload.
pub fn debian_upload_header(headers: &UploadHeaders, names: &[&str]) -> (r: std::result::Result<
    Option<String>,
    Refusal,
>)
    ensures
        verdict(r) == upload_header(headers.deep_view(), name_texts(names@)),
{
    let ghost all = name_texts(names@);
    let mut i: usize = 0;
    assert(all.skip(0) =~= all);
    while i < names.len()
        invariant
            i <= names.len(),
            all == name_texts(names@),
            upload_header(headers.deep_view(), all) == upload_header(
                headers.deep_view(),
                all.skip(i as int),
            ),
        decreases names.len() - i,
    {
        let name = names[i];
        proof {
            assert(all.skip(i as int)[0] == name@);
            assert(all.skip(i as int).drop_first() =~= all.skip(i + 1));
        }
        match headers.get(name) {
            None => {},
            Some(None) => {
                return Err(refuse2(400, "Invalid Debian upload metadata header ", name));
            },
            Some(Some(text)) => {
                let chars = chars_of(text);
                let value = trim_of(chars.as_slice());
                if value.len() == 0 {
                    let message = cat3(
                        "Debian upload metadata header ",
                        name,
                        " must not be empty",
                    );
                    return Err(refuse(400, message.as_str()));
                }
                if !holds_identifier(value) {
                    let message = cat3(
                        "Debian upload metadata header ",
                        name,
                        " contains an invalid identifier",
                    );
                    return Err(refuse(400, message.as_str()));
                }
                return Ok(Some(text_of(value)));
            },
        }
        i += 1;
    }
    Ok(None)
}

/// The distribution that the headers of an upload name.
pub fn debian_upload_distribution(headers: &UploadHeaders) -> (r: std::result::Result<
    Option<String>,
    Refusal,
>)
    ensures
        verdict(r) == upload_header(headers.deep_view(), distribution_headers()),
{
    let mut names: Vec<&str> = Vec::new();
    names.push("X-Debian-Distribution");
    names.push("X-Debian-Codename");
    names.push("X-Debian-Suite");
    names.push("X-Distribution");
    assert(name_texts(names@) =~= distribution_headers());
    debian_upload_header(headers, names.as_slice())
}

/// The component that the headers of an upload name.
pub fn debian_upload_component(headers: &UploadHeaders) -> (r: std::result::Result<
    Option<String>,
    Refusal,
>)
    ensures
        verdict(r) == upload_header(headers.deep_view(), component_headers()),
{
    let mut names: Vec<&str> = Vec::new();
    names.push("X-Debian-Component");
    names.push("X-Component");
    assert(name_texts(names@) =~= component_headers());
    debian_upload_header(headers, names.as_slice())
}

/// The architecture that the headers of an upload name.
pub fn debian_upload_architecture(headers: &UploadHeaders) -> (r: std::result::Result<
    Option<String>,
    Refusal,
>)
    ensures
        verdict(r) == upload_header(headers.deep_view(), architecture_headers()),
{
    let mut names: Vec<&str> = Vec::new();
    names.push("X-Debian-Architecture");
    names.push("X-Architecture");
    assert(name_texts(names@) =~= architecture_headers());
    debian_upload_header(headers, names.as_slice())
}

/// Checks that the component of a path and that of a header agree.
pub fn validate_debian_component_header(route_component: &str, header_component: Option<&str>) -> (r: std::result::Result<
    (),
    Refusal,
>)
    ensures
        verdict(r) == component_agreement(route_component@, opt_text(header_component)),
{
    match header_component {
        Some(component) => if same_text(route_component, component) {
            Ok(())
        } else {
            let message = cat5(
                "Component mismatch: path says '",
                route_component,
                "' but upload metadata says '",
                component,
                "'",
            );
            Err(refuse(400, message.as_str()))
        },
        None => Ok(()),
    }
}

// ---------------------------------------------------------------------------
// Uploads
// ---------------------------------------------------------------------------

/// Complains that two places disagree.
fn disagree(what: &str, first_place: &str, first: &str, second: &str) -> (r: Refusal)
    ensures
        r.deep_view() == disagreement(what@, first_place@, first@, second@),
{
    let head = cat5(what, " mismatch: ", first_place, " says '", first);
    let message = cat4(head.as_str(), "' but control says '", second, "'");
    refuse(400, message.as_str())
}

/// Checks that an expected architecture and a control stanza agree.
pub fn validate_debian_expected_architecture(
    expected_architecture: Option<&str>,
    control: &DebControl,
) -> (r: std::result::Result<(), Refusal>)
    ensures
        verdict(r) == architecture_agreement(opt_text(expected_architecture), control.deep_view()),
{
    match expected_architecture {
        Some(arch) => if same_text(arch, control.architecture.as_str()) {
            Ok(())
        } else {
            Err(disagree("Architecture", "upload metadata", arch, control.architecture.as_str()))
        },
        None => Ok(()),
    }
}

/// Checks that the name of a package file and its control stanza agree.
pub fn validate_debian_control_matches_filename(deb_info: &DebInfo, control: &DebControl) -> (r: std::result::Result<
    (),
    Refusal,
>)
    ensures
        verdict(r) == filename_agreement(deb_info.deep_view(), control.deep_view()),
{
    if control.package != deb_info.name {
        return Err(
            disagree(
                "Package name",
                "filename",
                deb_info.name.as_str(),
                control.package.as_str(),
            ),
        );
    }
    if control.version != deb_info.version {
        return Err(
            disagree("Version", "filename", deb_info.version.as_str(), control.version.as_str()),
        );
    }
    if control.architecture != deb_info.arch {
        return Err(
            disagree(
                "Architecture",
                "filename",
                deb_info.arch.as_str(),
                control.architecture.as_str(),
            ),
        );
    }
    Ok(())
}

/// The package belongs to the installer.
fn belongs_to_installer(component: &str, path: &str) -> (r: bool)
    ensures
        r == is_installer(component@, path@),
{
    let component_chars = chars_of(component);
    let path_chars = chars_of(path);
    same_text(component, "debian-installer") || holds_text(
        path_chars.as_slice(),
        "/debian-installer/",
    ) || holds_text(component_chars.as_slice(), "debian-installer")
}

/// Makes what is stored with an uploaded package.
pub fn build_debian_artifact_metadata(
    distribution: Option<&str>,
    component: &str,
    artifact_path: &str,
    filename: &str,
    package_type: &str,
    control: &DebControl,
) -> (r: UploadMetadata)
    ensures
        r.deep_view() == artifact_metadata(
            opt_text(distribution),
            component@,
            artifact_path@,
            filename@,
            package_type@,
            control.deep_view(),
        ),
{
    let installer = belongs_to_installer(component, artifact_path);
    UploadMetadata {
        distribution: match distribution {
            Some(name) => Some(name.to_string()),
            None => None,
        },
        component: component.to_string(),
        filename: filename.to_string(),
        path: artifact_path.to_string(),
        package_type: if installer {
            "udeb".to_string()
        } else {
            package_type.to_string()
        },
        section: if installer {
            Some("debian-installer".to_string())
        } else {
            copy_text(&control.section)
        },
        control: control.clone(),
    }
}

/// Makes what a package catalog is told of an uploaded package.
pub fn build_debian_package_catalog_metadata(upload: &DebianPackageUpload) -> (r: CatalogMetadata)
    ensures
        ({
            let installer = is_installer(upload.component@, upload.artifact_path@);
            let control = upload.control.deep_view();
            &&& r.architecture@ == control.architecture
            &&& r.distribution.deep_view() == upload.distribution.deep_view()
            &&& r.component@ == upload.component@
            &&& r.package_type@ == stored_type(installer, upload.deb_info.package_type@)
            &&& r.section.deep_view() == stored_section(installer, control.section)
            &&& r.priority.deep_view() == control.priority
            &&& r.maintainer.deep_view() == control.maintainer
            &&& r.homepage.deep_view() == control.homepage
            &&& r.source.deep_view() == control.source
        }),
{
    let installer = belongs_to_installer(upload.component.as_str(), upload.artifact_path.as_str());
    CatalogMetadata {
        architecture: upload.control.architecture.clone(),
        distribution: copy_text(&upload.distribution),
        component: upload.component.clone(),
        package_type: if installer {
            "udeb".to_string()
        } else {
            upload.deb_info.package_type.clone()
        },
        section: if installer {
            Some("debian-installer".to_string())
        } else {
            copy_text(&upload.control.section)
        },
        priority: copy_text(&upload.control.priority),
        maintainer: copy_text(&upload.control.maintainer),
        homepage: copy_text(&upload.control.homepage),
        source: copy_text(&upload.control.source),
    }
}

/// A reference to an optional text.
pub(crate) fn str_of(value: &Option<String>) -> (r: Option<&str>)
    ensures
        opt_text(r) == value.deep_view(),
{
    match value {
        Some(text) => Some(text.as_str()),
        None => None,
    }
}

/// Checks an upload to a path in a component and makes what is stored for it.
pub fn prepare_debian_upload(
    component: &str,
    path: &str,
    body: &[u8],
    distribution: Option<String>,
    expected_architecture: Option<&str>,
) -> (r: std::result::Result<DebianPackageUpload, Refusal>)
    ensures
        verdict(r) == prepared(
            component@,
            path@,
            body@,
            distribution.deep_view(),
            opt_text(expected_architecture),
        ),
{
    let filename = file_name_of(path);
    let deb_info = match parse_deb_filename(filename.as_str()) {
        Some(info) => info,
        None => {
            return Err(
                refuse(
                    400,
                    "Invalid Debian package filename. Expected {name}_{version}_{arch}.deb",
                ),
            );
        },
    };
    let control = match DebianHandler::extract_control(body) {
        Ok(control) => control,
        Err(error) => {
            return Err(refuse2(400, "Invalid Debian package metadata: ", error.message()));
        },
    };
    if let Err(refusal) = validate_debian_control_matches_filename(&deb_info, &control) {
        return Err(refusal);
    }
    if let Err(refusal) = validate_debian_expected_architecture(expected_architecture, &control) {
        return Err(refusal);
    }
    let artifact_path = cat4("pool/", component, "/", path);
    let metadata = build_debian_artifact_metadata(
        str_of(&distribution),
        component,
        artifact_path.as_str(),
        filename.as_str(),
        deb_info.package_type.as_str(),
        &control,
    );
    Ok(
        DebianPackageUpload {
            artifact_path,
            distribution,
            component: component.to_string(),
            deb_info,
            control,
            metadata,
        },
    )
}

/// Checks an upload to a path in the pool and makes what is stored for it.
pub fn prepare_pool_upload(headers: &UploadHeaders, component: &str, path: &str, body: &[u8]) -> (r: std::result::Result<
    DebianPackageUpload,
    Refusal,
>)
    ensures
        verdict(r) == pool_upload(headers.deep_view(), component@, path@, body@),
{
    let distribution = match debian_upload_distribution(headers) {
        Ok(value) => value,
        Err(refusal) => {
            return Err(refusal);
        },
    };
    let header_component = match debian_upload_component(headers) {
        Ok(value) => value,
        Err(refusal) => {
            return Err(refusal);
        },
    };
    if let Err(refusal) = validate_debian_component_header(component, str_of(&header_component)) {
        return Err(refusal);
    }
    let expected = match debian_upload_architecture(headers) {
        Ok(value) => value,
        Err(refusal) => {
            return Err(refusal);
        },
    };
    prepare_debian_upload(component, path, body, distribution, str_of(&expected))
}

/// The filename that a disposition header gives.
fn filename_in_disposition(value: &str) -> (r: Option<String>)
    ensures
        r.deep_view() == disposition_filename(value@),
        is_ascii_text(value@) ==> (r matches Some(name) ==> is_ascii_text(name@)),
{
    let chars = chars_of(value);
    proof {
        reveal_strlit("filename=");
    }
    match find_text_of(chars.as_slice(), "filename=") {
        Some(n) => {
            proof {
                find_text_fits(value@, "filename="@);
                assert(value@.subrange(n + 9, value@.len() as int) =~= value@.skip(n + 9));
            }
            let rest = vstd::slice::slice_subrange(chars.as_slice(), n + 9, chars.len());
            let piece = match find_text_of(rest, "filename=") {
                Some(m) => {
                    proof {
                        find_text_fits(rest@, "filename="@);
                        assert(rest@.subrange(0, m as int) =~= rest@.take(m as int));
                    }
                    vstd::slice::slice_subrange(rest, 0, m)
                },
                None => rest,
            };
            let name = trim_char_of(trim_char_of(piece, '"'), '\'');
            proof {
                if is_ascii_text(value@) {
                    assert(is_ascii_text(rest@));
                    assert(is_ascii_text(piece@));
                    trim_char_keeps_ascii(piece@, '"');
                    trim_char_keeps_ascii(trim_char(piece@, '"'), '\'');
                }
            }
            Some(text_of(name))
        },
        None => None,
    }
}

proof fn find_text_fits(s: Seq<char>, p: Seq<char>)
    ensures
        find_text(s, p) matches Some(n) ==> n + p.len() <= s.len(),
    decreases s.len(),
{
    if !starts_with(s, p) && s.len() > 0 {
        find_text_fits(s.drop_first(), p);
    }
}

proof fn trim_char_keeps_ascii(s: Seq<char>, c: char)
    requires
        is_ascii_text(s),
    ensures
        is_ascii_text(trim_char(s, c)),
{
    trim_start_char_keeps_ascii(s, c);
    trim_end_char_keeps_ascii(crate::text::trim_start_char(s, c), c);
}

proof fn trim_start_char_keeps_ascii(s: Seq<char>, c: char)
    requires
        is_ascii_text(s),
    ensures
        is_ascii_text(crate::text::trim_start_char(s, c)),
    decreases s.len(),
{
    if s.len() > 0 && s[0] == c {
        trim_start_char_keeps_ascii(s.drop_first(), c);
    }
}

proof fn trim_end_char_keeps_ascii(s: Seq<char>, c: char)
    requires
        is_ascii_text(s),
    ensures
        is_ascii_text(crate::text::trim_end_char(s, c)),
    decreases s.len(),
{
    if s.len() > 0 && s.last() == c {
        trim_end_char_keeps_ascii(s.drop_last(), c);
    }
}

/// The filename that the headers of an upload without a path give.
pub fn raw_upload_filename(headers: &UploadHeaders) -> (r: std::result::Result<String, Refusal>)
    ensures
        verdict(r) == raw_filename(headers.deep_view()),
        r matches Ok(filename) ==> is_ascii_text(filename@),
{
    if let Some(filename) = headers.text("X-Filename") {
        return Ok(filename.to_string());
    }
    if let Some(value) = headers.text("Content-Disposition") {
        if let Some(filename) = filename_in_disposition(value) {
            return Ok(filename);
        }
    }
    Err(
        refuse(
            400,
            "Missing filename. Provide X-Filename header or Content-Disposition with filename",
        ),
    )
}

/// Checks an upload without a path, files it by the name of its file, and makes
/// what is stored for it.
pub fn prepare_raw_upload(headers: &UploadHeaders, body: &[u8]) -> (r: std::result::Result<
    DebianPackageUpload,
    Refusal,
>)
    ensures
        verdict(r) == raw_upload(headers.deep_view(), body@),
{
    let filename = match raw_upload_filename(headers) {
        Ok(filename) => filename,
        Err(refusal) => {
            return Err(refusal);
        },
    };
    let info = match parse_deb_filename(filename.as_str()) {
        Some(info) => info,
        None => {
            return Err(
                refuse(
                    400,
                    "Invalid Debian package filename. Expected {name}_{version}_{arch}.deb",
                ),
            );
        },
    };
    let component = match debian_upload_component(headers) {
        Ok(Some(value)) => value,
        Ok(None) => "main".to_string(),
        Err(refusal) => {
            return Err(refusal);
        },
    };
    let distribution = match debian_upload_distribution(headers) {
        Ok(value) => value,
        Err(refusal) => {
            return Err(refusal);
        },
    };
    let expected = match debian_upload_architecture(headers) {
        Ok(value) => value,
        Err(refusal) => {
            return Err(refusal);
        },
    };
    proof {
        assert(is_ascii_text(info.name@));
    }
    let prefix = DebianHandler::get_pool_prefix(info.name.as_str());
    let path = cat5(prefix.as_str(), "/", info.name.as_str(), "/", filename.as_str());
    prepare_debian_upload(component.as_str(), path.as_str(), body, distribution, str_of(&expected))
}

/// A package that is there already is not stored again.
pub fn admit_upload(already_stored: bool) -> (r: std::result::Result<(), Refusal>)
    ensures
        verdict(r) == if already_stored {
            Err::<(), RefusalModel>(refused(409, "Package already exists"@))
        } else {
            Ok::<(), RefusalModel>(())
        },
{
    if already_stored {
        Err(refuse(409, "Package already exists"))
    } else {
        Ok(())
    }
}

/// The description of a package, where it holds more than white space.
pub fn package_description(control: &DebControl) -> (r: Option<&str>)
    ensures
        opt_text(r) == (match control.deep_view().description {
            Some(text) => if is_blank(text) {
                None
            } else {
                Some(text)
            },
            None => None,
        }),
{
    match &control.description {
        Some(text) => if is_blank_text(text.as_str()) {
            None
        } else {
            Some(text.as_str())
        },
        None => None,
    }
}

/// The upload comes from a peer that replicates.
pub open spec fn is_replication(headers: Seq<(Seq<char>, Option<Seq<char>>)>) -> bool {
    header_text(headers, "x-artifact-keeper-replication"@) == Some("true"@)
}

/// An upload is passed on to peers unless it comes from one.
pub fn should_enqueue_debian_sync_tasks(headers: &UploadHeaders) -> (r: bool)
    ensures
        r == !is_replication(headers.deep_view()),
{
    match headers.text("x-artifact-keeper-replication") {
        Some(value) => !same_text(value, "true"),
        None => true,
    }
}

/// Makes what the uploader is told.
pub fn build_upload_receipt(upload: &DebianPackageUpload, sha256: &str, size: i64) -> (r: UploadReceipt)
    ensures
        r.package@ == upload.control.package@,
        r.version@ == upload.control.version@,
        r.architecture@ == upload.control.architecture@,
        r.distribution.deep_view() == upload.distribution.deep_view(),
        r.component@ == upload.component@,
        r.path@ == upload.artifact_path@,
        r.sha256@ == sha256@,
        r.size == size,
{
    UploadReceipt {
        package: upload.control.package.clone(),
        version: upload.control.version.clone(),
        architecture: upload.control.architecture.clone(),
        distribution: copy_text(&upload.distribution),
        component: upload.component.clone(),
        path: upload.artifact_path.clone(),
        sha256: sha256.to_string(),
        size,
    }
}

} // verus!

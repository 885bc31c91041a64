//! What is published, said of what it is made from.

use vstd::prelude::*;
use vstd::utf8::encode_utf8;

use crate::control::ControlModel;
use crate::digest::{sha256_hex, sha512_hex};
use crate::dists::{synced_key, synced_prefix};
use crate::dists_laws::extension_says_the_form;
use crate::error::Failure;
use crate::generated::GeneratedModel;
use crate::hosted::DigestedFile;
use crate::http::{proxy_refusal, RefusalModel};
use crate::index::{PackageModel, SourceModel};
use crate::number::{decimal, value};
use crate::ordered::lookup;
use crate::plan::{absent_paths, source_index_paths, sync_plan, DebianSyncDownloadPolicy};
use crate::release::{release_of, unstuffed, HashModel, ReleaseHash, ReleaseModel};
use crate::roundtrip::is_word;
use crate::roundtrip_release::{draft_text, generated_release_reads_back, hash_draft_text, is_publishable};
use crate::roundtrip_release::{is_readable, joined_words_read_back, published_release_reads_back, Draft, HashDraft};
use crate::select::{package_indexes, source_indexes, FilterModel, IndexModel, SourceIndexModel};
use crate::signed::{signed_key, variant_type, SignedReleaseVariant};
use crate::sort::{sorted, sorted_is_ordered, Sortable};
use crate::sync::{planned_architectures, planned_components, publication, publication_draft, BaseModel, PlannedModel};
use crate::text::{contains_text, ends_with, is_blank, occurs_at, starts_with, trim, trim_char};
use crate::upload::{artifact_metadata, is_visible, visible_text};

verus! {

// ---------------------------------------------------------------------------
// Releases
// ---------------------------------------------------------------------------

proof fn sorted_keeps<T: Sortable>(items: Seq<T::V>, x: T::V)
    ensures
        items.contains(x) <==> sorted::<T>(items).contains(x),
        sorted::<T>(items).len() == items.len(),
{
    let s = sorted::<T>(items);
    sorted_is_ordered::<T>(items);
    s.to_multiset_ensures();
    items.to_multiset_ensures();
    assert(s.contains(x) <==> s.to_multiset().count(x) > 0);
    assert(items.contains(x) <==> items.to_multiset().count(x) > 0);
}

/// A Release that is published reads as one that lists every file by each of its four
/// digests, with its length and its path, and nothing else.
pub proof fn published_release_lists_every_file(d: Draft, f: int)
    requires
        is_publishable(d),
        0 <= f < d.files.len(),
    ensures
        ({
            let file = d.files[f];
            let size = file.bytes.len() as u64;
            let path = file.path;
            &&& release_of(draft_text(d)) is Ok
            &&& ({
                let r = release_of(draft_text(d))->Ok_0;
                &&& r.md5sum.contains((HashModel { hash: file.md5, size, path }))
                &&& r.sha1.contains((HashModel { hash: file.sha1, size, path }))
                &&& r.sha256.contains((HashModel { hash: sha256_hex(file.bytes), size, path }))
                &&& r.sha512.contains((HashModel { hash: sha512_hex(file.bytes), size, path }))
                &&& r.md5sum.len() == d.files.len()
                &&& r.sha1.len() == d.files.len()
                &&& r.sha256.len() == d.files.len()
                &&& r.sha512.len() == d.files.len()
            })
        }),
{
    published_release_reads_back(d);
    let fs = sorted::<DigestedFile>(d.files);
    let file = d.files[f];
    sorted_keeps::<DigestedFile>(d.files, file);
    let i = choose|i: int| 0 <= i < fs.len() && fs[i] == file;
    let r = release_of(draft_text(d))->Ok_0;
    let size = file.bytes.len() as u64;
    let path = file.path;
    assert(r.md5sum[i] == (HashModel { hash: file.md5, size, path }));
    assert(r.sha1[i] == (HashModel { hash: file.sha1, size, path }));
    assert(r.sha256[i] == (HashModel { hash: sha256_hex(file.bytes), size, path }));
    assert(r.sha512[i] == (HashModel { hash: sha512_hex(file.bytes), size, path }));
}

/// A Release that is published reads as one that says its suite, its date, its codename,
/// its description, and, where they are words, its components and architectures.
pub proof fn published_release_says_what_it_is_for(d: Draft)
    requires
        is_publishable(d),
    ensures
        release_of(draft_text(d)) is Ok,
        ({
            let r = release_of(draft_text(d))->Ok_0;
            &&& r.suite == trim(d.suite)
            &&& r.date == trim(d.date)
            &&& d.codename is Some && !is_blank(d.codename->0) ==> r.codename == Some(
                trim(d.codename->0),
            )
            &&& d.codename is None || is_blank(d.codename->0) ==> r.codename is None
            &&& d.description is Some && !is_blank(d.description->0) ==> r.description == Some(
                trim(d.description->0),
            )
            &&& (forall|i: int| 0 <= i < d.components.len() ==> is_word(#[trigger] d.components[i]))
                ==> r.components == d.components
            &&& (forall|i: int|
                0 <= i < d.architectures.len() ==> is_word(#[trigger] d.architectures[i]))
                ==> r.architectures == d.architectures
        }),
{
    published_release_reads_back(d);
    if forall|i: int| 0 <= i < d.components.len() ==> is_word(#[trigger] d.components[i]) {
        joined_words_read_back(d.components);
    }
    if forall|i: int| 0 <= i < d.architectures.len() ==> is_word(#[trigger] d.architectures[i]) {
        joined_words_read_back(d.architectures);
    }
}

/// A Release of given hashes reads as one that lists each of them and nothing else.
pub proof fn generated_release_lists_every_hash(d: HashDraft, h: int)
    requires
        is_readable(d),
    ensures
        release_of(hash_draft_text(d)) is Ok,
        ({
            let r = release_of(hash_draft_text(d))->Ok_0;
            &&& 0 <= h < d.hashes.len() ==> r.sha256.contains(d.hashes[h])
            &&& r.sha256.len() == d.hashes.len()
            &&& r.suite == trim(d.suite)
            &&& r.date == trim(d.date)
            &&& d.codename is Some ==> r.codename == Some(trim(d.codename->0))
            &&& d.codename is None ==> r.codename is None
        }),
{
    generated_release_reads_back(d);
    if 0 <= h < d.hashes.len() {
        sorted_keeps::<ReleaseHash>(d.hashes, d.hashes[h]);
    }
    sorted_is_ordered::<ReleaseHash>(d.hashes);
}

/// The Release that a sync publishes lists every file that was generated: by the two
/// digests that came for it, by its own SHA-256 and SHA-512, with its length and path.
pub proof fn sync_release_lists_every_file(
    base: BaseModel,
    p: PlannedModel,
    g: GeneratedModel,
    digests: Seq<(Seq<char>, Seq<char>)>,
    date: Seq<char>,
    f: int,
)
    requires
        is_publishable(publication_draft(p, g, digests, date)),
        digests.len() == g.release_files.len(),
        0 <= f < g.release_files.len(),
    ensures
        ({
            let row = publication(base, p, g, digests, date).rows.last();
            let path = g.release_files[f].0;
            let bytes = g.release_files[f].1;
            let size = bytes.len() as u64;
            &&& row.0 == "debian_synced_release:"@ + trim_char(
                base.config.distributions[base.turn as int],
                '/',
            )
            &&& release_of(row.1) is Ok
            &&& ({
                let r = release_of(row.1)->Ok_0;
                &&& r.md5sum.contains((HashModel { hash: digests[f].0, size, path }))
                &&& r.sha1.contains((HashModel { hash: digests[f].1, size, path }))
                &&& r.sha256.contains((HashModel { hash: sha256_hex(bytes), size, path }))
                &&& r.sha512.contains((HashModel { hash: sha512_hex(bytes), size, path }))
                &&& r.sha256.len() == g.release_files.len()
                &&& r.suite == trim(p.release.suite)
                &&& (forall|i: int|
                    0 <= i < planned_components(p.plan).len() ==> is_word(
                        #[trigger] planned_components(p.plan)[i],
                    )) ==> r.components == planned_components(p.plan)
                &&& (forall|i: int|
                    0 <= i < planned_architectures(p.plan).len() ==> is_word(
                        #[trigger] planned_architectures(p.plan)[i],
                    )) ==> r.architectures == planned_architectures(p.plan)
            })
        }),
{
    let d = publication_draft(p, g, digests, date);
    published_release_lists_every_file(d, f);
    published_release_says_what_it_is_for(d);
}

// ---------------------------------------------------------------------------
// Plans
// ---------------------------------------------------------------------------

/// A plan names the three forms of the Release, below the directory of the distribution
/// or, without one, at the root.
pub proof fn plan_names_the_release(
    distribution: Seq<char>,
    release: ReleaseModel,
    filter: FilterModel,
    packages: Seq<(Seq<char>, Seq<PackageModel>)>,
    sources: Seq<(Seq<char>, Seq<SourceModel>)>,
    policy: DebianSyncDownloadPolicy,
)
    ensures
        ({
            let plan = sync_plan(distribution, release, filter, packages, sources, policy);
            let below = if distribution.len() == 0 {
                Seq::<char>::empty()
            } else {
                "dists/"@ + distribution + "/"@
            };
            &&& plan.distribution == distribution
            &&& plan.release_paths == seq![
                below + "InRelease"@,
                below + "Release"@,
                below + "Release.gpg"@,
            ]
        }),
{
}

proof fn absent_are_filtered<V>(paths: Seq<Seq<char>>, entries: Seq<(Seq<char>, V)>)
    ensures
        absent_paths(paths, entries) == paths.filter(
            |path: Seq<char>| lookup(entries, path) is None,
        ),
    decreases paths.len(),
{
    reveal(Seq::filter);
    if paths.len() > 0 {
        absent_are_filtered(paths.drop_last(), entries);
    }
}

/// A plan reports every index that was not read, as often as the mirror takes it, and
/// no other.
pub proof fn plan_reports_every_missing_index(
    distribution: Seq<char>,
    release: ReleaseModel,
    filter: FilterModel,
    packages: Seq<(Seq<char>, Seq<PackageModel>)>,
    sources: Seq<(Seq<char>, Seq<SourceModel>)>,
    policy: DebianSyncDownloadPolicy,
)
    ensures
        ({
            let plan = sync_plan(distribution, release, filter, packages, sources, policy);
            &&& plan.missing_package_indexes.to_multiset() == plan.package_indexes.map_values(
                |index: IndexModel| index.path,
            ).filter(|path: Seq<char>| lookup(packages, path) is None).to_multiset()
            &&& plan.missing_source_indexes.to_multiset() == plan.source_indexes.map_values(
                |index: SourceIndexModel| index.path,
            ).filter(|path: Seq<char>| lookup(sources, path) is None).to_multiset()
        }),
{
    let pi = package_indexes(release, filter);
    let si = source_indexes(release, filter);
    let a = crate::plan::index_paths(pi);
    let b = source_index_paths(si);
    absent_are_filtered(a, packages);
    absent_are_filtered(b, sources);
    sorted_is_ordered::<String>(absent_paths(a, packages));
    sorted_is_ordered::<String>(absent_paths(b, sources));
    assert(a =~= pi.map_values(|index: IndexModel| index.path));
    assert(b =~= si.map_values(|index: SourceIndexModel| index.path));
}

// ---------------------------------------------------------------------------
// Signed files
// ---------------------------------------------------------------------------

/// A signed file is kept under the digest of what it is: its name, the fingerprint of
/// the key and the text that was signed.
pub proof fn signed_file_is_kept_by_what_it_is(text: Seq<char>, fingerprint: Seq<char>)
    ensures
        signed_key(SignedReleaseVariant::InRelease, text, fingerprint) == sha256_hex(
            encode_utf8("InRelease"@ + seq!['\0'] + fingerprint + seq!['\0'] + text),
        ),
        signed_key(SignedReleaseVariant::ReleaseGpg, text, fingerprint) == sha256_hex(
            encode_utf8("Release.gpg"@ + seq!['\0'] + fingerprint + seq!['\0'] + text),
        ),
        variant_type(SignedReleaseVariant::InRelease) == "text/plain; charset=utf-8"@,
        variant_type(SignedReleaseVariant::ReleaseGpg) == "application/pgp-signature"@,
{
}

/// A line of a clear-signed text that begins with a dash and a space is read without
/// these, whatever follows, and any other as it is.
pub proof fn escaped_line_is_read(line: Seq<char>)
    ensures
        unstuffed("- "@ + line) == line,
        !starts_with(line, "- "@) ==> unstuffed(line) == line,
{
    reveal_strlit("- ");
    let s = "- "@ + line;
    assert(s.take(2) =~= "- "@);
    assert(s.skip(2) =~= line);
}

// ---------------------------------------------------------------------------
// Uploads
// ---------------------------------------------------------------------------

/// A package of the installer's component or place is stored as one of the installer,
/// and any other as what it is.
pub proof fn installer_packages_are_stored_as_such(
    distribution: Option<Seq<char>>,
    component: Seq<char>,
    path: Seq<char>,
    filename: Seq<char>,
    package_type: Seq<char>,
    control: ControlModel,
)
    ensures
        ({
            let m = artifact_metadata(
                distribution,
                component,
                path,
                filename,
                package_type,
                control,
            );
            let installer = contains_text(component, "debian-installer"@) || contains_text(
                path,
                "/debian-installer/"@,
            );
            &&& installer ==> m.package_type == "udeb"@ && m.section == Some("debian-installer"@)
            &&& !installer ==> m.package_type == package_type && m.section == control.section
            &&& m.distribution == distribution
            &&& m.component == component
            &&& m.filename == filename
            &&& m.path == path
            &&& m.control == control
        }),
{
    reveal_strlit("debian-installer");
    let word = "debian-installer"@;
    if component == word {
        assert(component.subrange(0, word.len() as int) =~= word);
        assert(occurs_at(component, word, 0));
    }
}

/// The value of a header counts if and only if all of its bytes are visible ASCII
/// characters, spaces or tabs, and then says these.
pub proof fn visible_header_counts(value: Seq<u8>)
    ensures
        visible_text(value) is Some <==> forall|i: int|
            0 <= i < value.len() ==> (32 <= (#[trigger] value[i]) <= 126 || value[i] == 9),
        visible_text(value) matches Some(text) ==> text.len() == value.len() && forall|i: int|
            0 <= i < value.len() ==> (#[trigger] text[i]) as u32 == value[i] as u32,
{
    if forall|i: int| 0 <= i < value.len() ==> is_visible(#[trigger] value[i]) {
        assert forall|i: int| 0 <= i < value.len() implies (32 <= (#[trigger] value[i]) <= 126
            || value[i] == 9) by {
            assert(is_visible(value[i]));
        }
    }
    if forall|i: int|
        0 <= i < value.len() ==> (32 <= (#[trigger] value[i]) <= 126 || value[i] == 9) {
        assert forall|i: int| 0 <= i < value.len() implies is_visible(#[trigger] value[i]) by {
            assert(32 <= value[i] <= 126 || value[i] == 9);
        }
    }
}

// ---------------------------------------------------------------------------
// Numbers
// ---------------------------------------------------------------------------

/// One more digit makes a number ten times as large, and adds itself; a plus sign before
/// a number changes nothing.
pub proof fn digits_make_the_number(digits: Seq<char>, d: char, max: nat)
    requires
        '0' <= d <= '9',
    ensures
        value(seq![d]) == d as nat - '0' as nat,
        digits.len() > 0 ==> value(digits.push(d)) == 10 * value(digits) + (d as nat - '0' as nat),
        !starts_with(digits, "+"@) ==> decimal("+"@ + digits, max) == decimal(digits, max),
{
    reveal_strlit("+");
    assert(digits.push(d).drop_last() =~= digits);
    assert(seq![d].drop_last() =~= seq![]);
    reveal_with_fuel(value, 2);
    let s = "+"@ + digits;
    assert(s.drop_first() =~= digits);
    assert(s[0] == '+');
    if digits.len() > 0 && digits[0] == '+' {
        assert(digits.take(1) =~= "+"@);
    }
}

// ---------------------------------------------------------------------------
// Places and answers
// ---------------------------------------------------------------------------

/// What is published of a distribution is kept apart from that of others, and each of
/// its indexes from the others, by digests of the distribution and of the plain path.
pub proof fn published_index_has_its_place(distribution: Seq<char>, base: Seq<char>)
    requires
        !ends_with(base, ".gz"@),
        !ends_with(base, ".xz"@),
    ensures
        ({
            let prefix = "debian_synced_dists:"@ + sha256_hex(encode_utf8(distribution)) + ":"@;
            let key = prefix + sha256_hex(encode_utf8(base));
            &&& synced_prefix(distribution) == prefix
            &&& synced_key(distribution, base) == key
            &&& synced_key(distribution, base + ".gz"@) == key
            &&& synced_key(distribution, base + ".xz"@) == key
        }),
{
    extension_says_the_form(base);
}

/// What upstream does not have is not found here either, with the same words; any other
/// failure to fetch it is one of the gateway.
pub proof fn upstream_failure_is_answered(failure: Failure)
    ensures
        failure matches Failure::NotFound(message) ==> proxy_refusal(failure) == (RefusalModel {
            status: 404,
            message,
        }),
        !(failure is NotFound) ==> proxy_refusal(failure).status == 502,
{
}

} // verus!

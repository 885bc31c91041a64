//! What is answered to requests, said of what is known when they come.

use vstd::prelude::*;

use crate::cache::{cache_action, is_metadata, is_pool_file, metadata_names, pool_file_is_no_metadata};
use crate::cache::DebianCacheAction;
use crate::config::{ConfigModel, DebianPackageFetchStrategy};
use crate::deb::{deb_control, pool_prefix};
use crate::hosted::{deb_info, file_name};
use crate::http::{RefusalModel, ReplyModel};
use crate::members::{member_upstream, next_remote, walk_result, AnswerModel, MemberModel, RepositoryType};
use crate::ordered::{ascending, keys_of, lookup, lookup_after_without};
use crate::serve::{bare_paths, dists_plan, generation_names, package_fetch, DistsAction, FetchModel};
use crate::serve::RemotePackageModel;
use crate::signed::{cache_without, dropped, owner_slot, with_owner, CacheModel, OwnerModel};
use crate::text::{ascii_lower, contains_text, ends_with, find_text, is_blank, occurs_at, starts_with, trim};
use crate::text::{trim_char, trim_empty_iff_blank, trim_end_char, trim_start_char};
use crate::text_laws::first_occurrence_is_found;
use crate::upload::{disposition_filename, header_text, header_value, is_identifier, is_identifier_char, pool_upload};
use crate::upload::{prepared, raw_filename, raw_upload, upload_header};

verus! {

// ---------------------------------------------------------------------------
// Members of a virtual repository
// ---------------------------------------------------------------------------

/// The member can be asked: it mirrors an upstream.
pub open spec fn can_be_asked(member: MemberModel) -> bool {
    member.repo_type == RepositoryType::Remote && member.upstream_url is Some
}

/// The next member to ask is the first from a place on that can be asked; there is none
/// if and only if none from there on can.
pub proof fn next_member_is_first(members: Seq<MemberModel>, from: nat)
    ensures
        ({
            let n = next_remote(members, from);
            &&& n < members.len() ==> from <= n && can_be_asked(members[n as int])
            &&& forall|i: int|
                from <= i < members.len() && i < n ==> !can_be_asked(#[trigger] members[i])
            &&& n <= members.len()
        }),
    decreases members.len() - from,
{
    if from < members.len() && member_upstream(members[from as int]) is None {
        next_member_is_first(members, from + 1);
    }
}

/// The answer counts: it is a file, or a refusal other than that there is none.
pub open spec fn counts(answer: AnswerModel) -> bool {
    answer matches Err(refusal) ==> refusal.status != 404
}

/// Where every member says that it does not have the file, nothing is found.
pub proof fn nothing_is_found_where_all_lack(answers: Seq<AnswerModel>, ct: Seq<char>)
    requires
        forall|i: int| 0 <= i < answers.len() ==> !counts(#[trigger] answers[i]),
    ensures
        walk_result(None, answers, ct) == Ok::<Option<ReplyModel>, RefusalModel>(None),
    decreases answers.len(),
{
    if answers.len() > 0 {
        assert(!counts(answers[0]));
        let t = answers.drop_first();
        assert forall|i: int| 0 <= i < t.len() implies !counts(#[trigger] t[i]) by {
            assert(t[i] == answers[i + 1]);
        }
        nothing_is_found_where_all_lack(t, ct);
    }
}

/// Where no member has the file, the first refusal that counts is handed on.
pub proof fn first_refusal_is_handed_on(answers: Seq<AnswerModel>, ct: Seq<char>, i: int)
    requires
        0 <= i < answers.len(),
        forall|j: int| 0 <= j < answers.len() ==> (#[trigger] answers[j]) is Err,
        counts(answers[i]),
        forall|j: int| 0 <= j < i ==> !counts(#[trigger] answers[j]),
    ensures
        walk_result(None, answers, ct) == Err::<Option<ReplyModel>, RefusalModel>(
            answers[i]->Err_0,
        ),
    decreases answers.len(),
{
    let t = answers.drop_first();
    assert(answers[0] is Err);
    assert forall|j: int| 0 <= j < t.len() implies (#[trigger] t[j]) is Err by {
        assert(t[j] == answers[j + 1]);
    }
    if i == 0 {
        refusal_stays(answers[0]->Err_0, t, ct);
    } else {
        assert(!counts(answers[0]));
        assert forall|j: int| 0 <= j < i - 1 implies !counts(#[trigger] t[j]) by {
            assert(t[j] == answers[j + 1]);
        }
        assert(t[i - 1] == answers[i]);
        first_refusal_is_handed_on(t, ct, i - 1);
    }
}

proof fn refusal_stays(first: RefusalModel, answers: Seq<AnswerModel>, ct: Seq<char>)
    requires
        forall|j: int| 0 <= j < answers.len() ==> (#[trigger] answers[j]) is Err,
    ensures
        walk_result(Some(first), answers, ct) == Err::<Option<ReplyModel>, RefusalModel>(first),
    decreases answers.len(),
{
    if answers.len() > 0 {
        assert(answers[0] is Err);
        let t = answers.drop_first();
        assert forall|j: int| 0 <= j < t.len() implies (#[trigger] t[j]) is Err by {
            assert(t[j] == answers[j + 1]);
        }
        refusal_stays(first, t, ct);
    }
}

// ---------------------------------------------------------------------------
// What is done for a request
// ---------------------------------------------------------------------------

/// A file of a distribution is asked of the members by a virtual repository, fetched by
/// a remote one that can, and made here by any other; once generated metadata is
/// published none of these happens.
pub proof fn distribution_files_come_by_type(
    published: bool,
    repo_type: RepositoryType,
    can_fetch: bool,
)
    ensures
        ({
            let r = dists_plan(published, repo_type, can_fetch);
            &&& r is Err <==> published
            &&& r is Err ==> r->Err_0.status == 404
            &&& r == Ok::<DistsAction, RefusalModel>(DistsAction::WalkMembers) <==> !published
                && repo_type == RepositoryType::Virtual
            &&& r == Ok::<DistsAction, RefusalModel>(DistsAction::Fetch) <==> !published
                && repo_type == RepositoryType::Remote && can_fetch
            &&& r == Ok::<DistsAction, RefusalModel>(DistsAction::Local) <==> !published
                && repo_type != RepositoryType::Virtual && !(repo_type == RepositoryType::Remote
                && can_fetch)
        }),
{
}

/// A package file is fetched if and only if there is something to fetch with, the filters
/// and the path admit it, and its digest is known where it has to be. It goes past the
/// cache if and only if the repository passes packages through and no digest is known;
/// else it goes through it, against the digest that is known.
pub proof fn package_is_fetched_iff(request: RemotePackageModel)
    ensures
        ({
            let known = request.expected_sha256 is Some;
            let verifies = match request.config {
                Some(config) => config.verify_upstream_metadata,
                None => false,
            };
            let passes = match request.config {
                Some(config) => config.package_fetch_strategy
                    == DebianPackageFetchStrategy::Passthrough,
                None => false,
            };
            let r = package_fetch(request);
            &&& r is Ok <==> request.has_proxy && request.allowed && request.path_check is Ok && (
            known || (!verifies && !request.generation_active))
            &&& r is Ok && passes && !known ==> r->Ok_0 == FetchModel::Uncached
            &&& r is Ok && (known || !passes) ==> r->Ok_0 == FetchModel::Cached(
                request.expected_sha256,
            )
        }),
{
}

/// Every distribution of a repository may have generated metadata, under its name without
/// slashes at its ends; a flat one may have it under an empty name too.
pub proof fn every_distribution_may_be_published(config: ConfigModel, name: Seq<char>)
    ensures
        generation_names(Some(config)).contains(name) <==> (config.flat_repository && name.len()
            == 0) || exists|i: int|
            0 <= i < config.distributions.len() && trim_char(
                #[trigger] config.distributions[i],
                '/',
            ) == name,
        generation_names(None).len() == 0,
{
    let all = generation_names(Some(config));
    let bare = bare_paths(config.distributions);
    if all.contains(name) {
        let i = choose|i: int| 0 <= i < all.len() && all[i] == name;
        if i < bare.len() {
            assert(bare[i] == trim_char(config.distributions[i], '/'));
        }
    }
    if exists|i: int|
        0 <= i < config.distributions.len() && trim_char(#[trigger] config.distributions[i], '/')
            == name {
        let i = choose|i: int|
            0 <= i < config.distributions.len() && trim_char(
                #[trigger] config.distributions[i],
                '/',
            ) == name;
        assert(all[i] == name);
    }
    if config.flat_repository && name.len() == 0 {
        assert(name =~= seq![]);
        assert(all[bare.len() as int] == name);
    }
}

// ---------------------------------------------------------------------------
// Cached copies
// ---------------------------------------------------------------------------

/// The name is that of a metadata file.
pub open spec fn is_metadata_name(name: Seq<char>) -> bool {
    ||| name == "Release"@
    ||| name == "InRelease"@
    ||| name == "Release.gpg"@
    ||| name == "Packages"@
    ||| name == "Packages.gz"@
    ||| name == "Packages.xz"@
    ||| name == "Sources"@
    ||| name == "Sources.gz"@
    ||| name == "Sources.xz"@
}

proof fn metadata_name_is_known(name: Seq<char>) -> (i: int)
    requires
        is_metadata_name(name),
    ensures
        0 <= i < metadata_names().len(),
        metadata_names()[i] == name,
{
    let names = metadata_names();
    assert(names[0] == "Release"@ && names[1] == "InRelease"@ && names[2] == "Release.gpg"@
        && names[3] == "Packages"@ && names[4] == "Packages.gz"@ && names[5] == "Packages.xz"@
        && names[6] == "Sources"@ && names[7] == "Sources.gz"@ && names[8] == "Sources.xz"@);
    choose|i: int| 0 <= i < names.len() && names[i] == name
}

/// A cached metadata file, at the root or anywhere below `dists/`, is handed out until
/// it is stale, and then asked for again.
pub proof fn metadata_is_asked_for_again(
    directory: Seq<char>,
    name: Seq<char>,
    stale: bool,
    matches: bool,
)
    requires
        is_metadata_name(name),
    ensures
        ({
            let action = if stale {
                DebianCacheAction::Revalidate
            } else {
                DebianCacheAction::ServeCached
            };
            &&& cache_action(name, true, true, stale, matches) == action
            &&& cache_action("dists/"@ + directory + "/"@ + name, true, true, stale, matches)
                == action
        }),
{
    reveal_strlit("dists/");
    reveal_strlit("pool/");
    reveal_strlit("/");
    let i = metadata_name_is_known(name);
    let path = "dists/"@ + directory + "/"@ + name;
    assert(path.take(6) =~= "dists/"@);
    assert(path.skip(path.len() - (name.len() + 1)) =~= seq!['/'] + name);
    assert(is_metadata(path)) by {
        assert(ends_with(path, seq!['/'] + metadata_names()[i]));
    }
    assert(is_metadata(name));
    if is_pool_file(path) {
        pool_file_is_no_metadata(path);
    }
    if is_pool_file(name) {
        pool_file_is_no_metadata(name);
    }
}

/// A cached package file of the pool is handed out, however old it is, if and only if its
/// checksum matches; else it is fetched anew.
pub proof fn pool_files_are_kept_for_good(rest: Seq<char>, stale: bool, matches: bool)
    ensures
        ({
            let action = if matches {
                DebianCacheAction::ServeCached
            } else {
                DebianCacheAction::FetchAndCache
            };
            &&& cache_action("pool/"@ + rest + ".deb"@, true, true, stale, matches) == action
            &&& cache_action("pool/"@ + rest + ".udeb"@, true, true, stale, matches) == action
        }),
{
    reveal_strlit("pool/");
    reveal_strlit(".deb");
    reveal_strlit(".udeb");
    let a = "pool/"@ + rest + ".deb"@;
    let b = "pool/"@ + rest + ".udeb"@;
    assert(a.take(5) =~= "pool/"@);
    assert(b.take(5) =~= "pool/"@);
    assert(a.skip(a.len() - 4) =~= ".deb"@);
    assert(b.skip(b.len() - 5) =~= ".udeb"@);
    pool_file_is_no_metadata(a);
    pool_file_is_no_metadata(b);
}

/// What is not cached is fetched and cached, and nothing is cached of a fetch that
/// failed.
pub proof fn what_is_not_cached_is_fetched(path: Seq<char>, stale: bool, matches: bool)
    ensures
        cache_action(path, true, false, stale, matches) == DebianCacheAction::FetchAndCache,
        forall|cached: bool|
            cache_action(path, false, cached, stale, matches) == DebianCacheAction::DoNotCache,
{
}

// ---------------------------------------------------------------------------
// Headers of uploads
// ---------------------------------------------------------------------------

/// The header is the first of this name, whatever the case of its letters.
pub open spec fn is_first_header(
    headers: Seq<(Seq<char>, Option<Seq<char>>)>,
    name: Seq<char>,
    i: int,
) -> bool {
    &&& 0 <= i < headers.len()
    &&& ascii_lower(headers[i].0) == ascii_lower(name)
    &&& forall|j: int| 0 <= j < i ==> ascii_lower((#[trigger] headers[j]).0) != ascii_lower(name)
}

/// No header has this name.
pub open spec fn has_no_header(
    headers: Seq<(Seq<char>, Option<Seq<char>>)>,
    name: Seq<char>,
) -> bool {
    forall|j: int|
        0 <= j < headers.len() ==> ascii_lower((#[trigger] headers[j]).0) != ascii_lower(name)
}

/// The first header of a name gives its value; a name without one gives none.
pub proof fn first_header_counts(headers: Seq<(Seq<char>, Option<Seq<char>>)>, name: Seq<char>, i: int)
    ensures
        is_first_header(headers, name, i) ==> header_value(headers, name) == Some(headers[i].1)
            && header_text(headers, name) == headers[i].1,
        has_no_header(headers, name) ==> header_value(headers, name) is None && header_text(
            headers,
            name,
        ) is None,
    decreases headers.len(),
{
    if headers.len() > 0 {
        let t = headers.drop_first();
        first_header_counts(t, name, i - 1);
        if is_first_header(headers, name, i) && i > 0 {
            assert(ascii_lower(headers[0].0) != ascii_lower(name));
            assert forall|j: int| 0 <= j < i - 1 implies ascii_lower((#[trigger] t[j]).0)
                != ascii_lower(name) by {
                assert(t[j] == headers[j + 1]);
            }
        }
        if has_no_header(headers, name) {
            assert(ascii_lower(headers[0].0) != ascii_lower(name));
            assert forall|j: int| 0 <= j < t.len() implies ascii_lower((#[trigger] t[j]).0)
                != ascii_lower(name) by {
                assert(t[j] == headers[j + 1]);
            }
        }
    }
}

/// The value is good: a text of at most 128 letters, digits and signs, white space round
/// it aside.
pub open spec fn is_good_value(value: Option<Seq<char>>) -> bool {
    &&& value is Some
    &&& !is_blank(value->0)
    &&& trim(value->0).len() <= 128
    &&& forall|i: int|
        0 <= i < trim(value->0).len() ==> {
            let c = #[trigger] trim(value->0)[i];
            ('a' <= c <= 'z') || ('A' <= c <= 'Z') || ('0' <= c <= '9') || c == '-' || c == '_' || c
                == '.' || c == '+'
        }
}

/// Of several names the first that a header has counts: it is taken, trimmed, if it is
/// good, and refused if it is not, whatever headers of later names say. Where no header
/// has any of them, nothing is given.
pub proof fn first_name_counts(
    headers: Seq<(Seq<char>, Option<Seq<char>>)>,
    names: Seq<Seq<char>>,
    n: int,
)
    requires
        0 <= n <= names.len(),
        forall|j: int| 0 <= j < n ==> header_value(headers, #[trigger] names[j]) is None,
        n < names.len() ==> header_value(headers, names[n]) is Some,
    ensures
        n == names.len() ==> upload_header(headers, names) == Ok::<
            Option<Seq<char>>,
            RefusalModel,
        >(None),
        n < names.len() ==> {
            let value = header_value(headers, names[n])->0;
            let r = upload_header(headers, names);
            &&& r is Ok <==> is_good_value(value)
            &&& r is Ok ==> r->Ok_0 == Some(trim(value->0))
            &&& r is Err ==> r->Err_0.status == 400
        },
    decreases names.len(),
{
    if n > 0 {
        assert(header_value(headers, names[0]) is None);
        let t = names.drop_first();
        assert forall|j: int| 0 <= j < n - 1 implies header_value(
            headers,
            #[trigger] t[j],
        ) is None by {
            assert(t[j] == names[j + 1]);
        }
        if n < names.len() {
            assert(t[n - 1] == names[n]);
        }
        first_name_counts(headers, t, n - 1);
    } else if names.len() > 0 {
        if let Some(Some(value)) = header_value(headers, names[0]) {
            trim_empty_iff_blank(value);
            let name = trim(value);
            if is_identifier(name) {
                assert forall|i: int| 0 <= i < name.len() implies {
                    let c = #[trigger] name[i];
                    ('a' <= c <= 'z') || ('A' <= c <= 'Z') || ('0' <= c <= '9') || c == '-' || c
                        == '_' || c == '.' || c == '+'
                } by {
                    assert(is_identifier_char(name[i]));
                }
            }
            if is_good_value(Some(value)) {
                assert forall|i: int| 0 <= i < name.len() implies is_identifier_char(
                    #[trigger] name[i],
                ) by {
                    let c = name[i];
                }
            }
        }
    }
}

// ---------------------------------------------------------------------------
// Uploads
// ---------------------------------------------------------------------------

/// An upload to a path is accepted if and only if its name is that of a package file, its
/// control data can be read, these two agree, and the architecture is the expected one
/// where one is. What is stored of it is what it was uploaded with.
pub proof fn upload_is_accepted_iff_it_agrees(
    component: Seq<char>,
    path: Seq<char>,
    body: Seq<u8>,
    distribution: Option<Seq<char>>,
    expected: Option<Seq<char>>,
)
    ensures
        ({
            let r = prepared(component, path, body, distribution, expected);
            let info = deb_info(file_name(path));
            let control = deb_control(body);
            &&& r is Ok <==> info is Some && control is Ok && control->Ok_0.package == info->0.name
                && control->Ok_0.version == info->0.version && control->Ok_0.architecture
                == info->0.arch && (expected is Some ==> expected->0 == info->0.arch)
            &&& r is Err ==> r->Err_0.status == 400
            &&& r is Ok ==> {
                let u = r->Ok_0;
                &&& u.artifact_path == "pool/"@ + component + "/"@ + path
                &&& u.distribution == distribution
                &&& u.component == component
                &&& u.deb_info == info->0
                &&& u.control == control->Ok_0
                &&& u.metadata.distribution == distribution
                &&& u.metadata.component == component
                &&& u.metadata.filename == file_name(path)
                &&& u.metadata.path == u.artifact_path
                &&& u.metadata.control == u.control
            }
        }),
{
}

/// An upload to a path in a component goes by its headers: the component has to be that
/// of the header, where there is one, and the distribution and the expected architecture
/// are those of the headers.
pub proof fn pool_upload_goes_by_headers(
    headers: Seq<(Seq<char>, Option<Seq<char>>)>,
    component: Seq<char>,
    path: Seq<char>,
    body: Seq<u8>,
)
    ensures
        ({
            let r = pool_upload(headers, component, path, body);
            let distribution = upload_header(
                headers,
                seq![
                    "X-Debian-Distribution"@,
                    "X-Debian-Codename"@,
                    "X-Debian-Suite"@,
                    "X-Distribution"@,
                ],
            );
            let header = upload_header(headers, seq!["X-Debian-Component"@, "X-Component"@]);
            let expected = upload_header(
                headers,
                seq!["X-Debian-Architecture"@, "X-Architecture"@],
            );
            &&& r is Ok ==> distribution is Ok && expected is Ok && header is Ok && (
            header->Ok_0 is Some ==> header->Ok_0 == Some(component))
            &&& distribution is Ok && expected is Ok && header is Ok && (header->Ok_0 is Some
                ==> header->Ok_0 == Some(component)) ==> r == prepared(
                component,
                path,
                body,
                distribution->Ok_0,
                expected->Ok_0,
            )
        }),
{
}

/// An upload without a path goes by its headers too; without a header for it, it goes to
/// the main component, below a directory of its package.
pub proof fn raw_upload_goes_by_headers(
    headers: Seq<(Seq<char>, Option<Seq<char>>)>,
    body: Seq<u8>,
    filename: Seq<char>,
)
    requires
        raw_filename(headers) == Ok::<Seq<char>, RefusalModel>(filename),
        deb_info(filename) is Some,
    ensures
        ({
            let r = raw_upload(headers, body);
            let name = deb_info(filename)->0.name;
            let distribution = upload_header(
                headers,
                seq![
                    "X-Debian-Distribution"@,
                    "X-Debian-Codename"@,
                    "X-Debian-Suite"@,
                    "X-Distribution"@,
                ],
            );
            let header = upload_header(headers, seq!["X-Debian-Component"@, "X-Component"@]);
            let expected = upload_header(
                headers,
                seq!["X-Debian-Architecture"@, "X-Architecture"@],
            );
            let component = match header->Ok_0 {
                Some(component) => component,
                None => "main"@,
            };
            &&& r is Ok ==> distribution is Ok && expected is Ok && header is Ok
            &&& distribution is Ok && expected is Ok && header is Ok ==> r == prepared(
                component,
                pool_prefix(name) + "/"@ + name + "/"@ + filename,
                body,
                distribution->Ok_0,
                expected->Ok_0,
            )
        }),
{
}

/// The name of a raw upload is that of its own header, and only without one that of the
/// disposition.
pub proof fn own_header_names_upload(headers: Seq<(Seq<char>, Option<Seq<char>>)>)
    ensures
        header_text(headers, "X-Filename"@) matches Some(filename) ==> raw_filename(headers)
            == Ok::<Seq<char>, RefusalModel>(filename),
        header_text(headers, "X-Filename"@) is None ==> match header_text(
            headers,
            "Content-Disposition"@,
        ) {
            Some(value) => match disposition_filename(value) {
                Some(filename) => raw_filename(headers) == Ok::<Seq<char>, RefusalModel>(filename),
                None => raw_filename(headers) is Err,
            },
            None => raw_filename(headers) is Err,
        },
{
}

/// The filename of a disposition is what stands behind `filename=`, with or without
/// quotes round it.
pub proof fn disposition_names_file(name: Seq<char>)
    requires
        !name.contains('"'),
        !name.contains('\''),
        !name.contains('='),
        name.len() > 0,
    ensures
        disposition_filename("attachment; filename="@ + name) == Some(name),
        disposition_filename("attachment; filename=\""@ + name + "\""@) == Some(name),
        disposition_filename("attachment; filename='"@ + name + "'"@) == Some(name),
{
    reveal_strlit("attachment; filename=");
    reveal_strlit("attachment; filename=\"");
    reveal_strlit("attachment; filename='");
    reveal_strlit("\"");
    reveal_strlit("'");
    reveal_strlit("filename=");
    let c = "attachment; filename='"@ + name + "'"@;
    let marked = seq!['\''] + name + seq!['\''];
    assert(c.take(21) =~= "attachment; filename="@);
    first_filename_is_found(c);
    assert(c.skip(21) =~= marked);
    assert(!marked.contains('=') && !marked.contains('"')) by {
        if marked.contains('=') {
            let i = choose|i: int| 0 <= i < marked.len() && marked[i] == '=';
            assert(name[i - 1] == '=');
        }
        if marked.contains('"') {
            let i = choose|i: int| 0 <= i < marked.len() && marked[i] == '"';
            assert(name[i - 1] == '"');
        }
    }
    not_found_without_equals(marked);
    trim_char_keeps(marked, '"');
    unquoted(name, '\'');
    let a = "attachment; filename="@ + name;
    let b = "attachment; filename=\""@ + name + "\""@;
    let quoted = seq!['"'] + name + seq!['"'];
    assert(a.take(21) =~= "attachment; filename="@);
    assert(b.take(21) =~= "attachment; filename="@);
    first_filename_is_found(a);
    first_filename_is_found(b);
    assert(a.skip(21) =~= name);
    assert(b.skip(21) =~= quoted);
    not_found_without_equals(name);
    assert(!quoted.contains('=')) by {
        if quoted.contains('=') {
            let i = choose|i: int| 0 <= i < quoted.len() && quoted[i] == '=';
            assert(name[i - 1] == '=');
        }
    }
    not_found_without_equals(quoted);
    trim_char_keeps(name, '"');
    trim_char_keeps(name, '\'');
    unquoted(name, '"');
}

proof fn first_filename_is_found(s: Seq<char>)
    requires
        starts_with(s, "attachment; filename="@),
    ensures
        find_text(s, "filename="@) == Some(12nat),
{
    reveal_strlit("attachment; filename=");
    reveal_strlit("filename=");
    let head = "attachment; filename="@;
    let p = "filename="@;
    assert forall|i: int| 0 <= i < head.len() implies s[i] == head[i] by {
        assert(s.take(head.len() as int)[i] == s[i]);
    }
    first_occurrence_is_found(s, p);
    assert(s.subrange(12, 21) =~= p);
    assert(occurs_at(s, p, 12));
    let n = find_text(s, p)->0 as int;
    if find_text(s, p) is None {
        assert(contains_text(s, p));
    }
    if n < 12 {
        assert(s.subrange(n, n + 9)[0] == p[0]);
        assert(s[n] == 'f');
        assert(head[n] != 'f');
    }
    if n > 12 {
        assert(!occurs_at(s, p, 12));
    }
}

proof fn not_found_without_equals(s: Seq<char>)
    requires
        !s.contains('='),
    ensures
        find_text(s, "filename="@) is None,
{
    reveal_strlit("filename=");
    let p = "filename="@;
    first_occurrence_is_found(s, p);
    if let Some(n) = find_text(s, p) {
        assert(s.subrange(n as int, n as int + 9)[8] == p[8]);
        assert(s[n as int + 8] == '=');
    }
}

proof fn trim_char_keeps(s: Seq<char>, c: char)
    requires
        !s.contains(c),
    ensures
        trim_char(s, c) == s,
{
    if s.len() > 0 {
        assert(s.contains(s[0]));
        assert(s.contains(s[s.len() - 1]));
    }
}

proof fn unquoted(name: Seq<char>, c: char)
    requires
        !name.contains(c),
        name.len() > 0,
    ensures
        trim_char(seq![c] + name + seq![c], c) == name,
{
    let q = seq![c] + name + seq![c];
    let t = name + seq![c];
    reveal_with_fuel(trim_start_char, 3);
    reveal_with_fuel(trim_end_char, 3);
    assert(q.drop_first() =~= t);
    assert(name.contains(name[0]));
    assert(t[0] == name[0]);
    assert(trim_start_char(q, c) == t);
    assert(t.drop_last() =~= name);
    assert(name.contains(name[name.len() - 1]));
}

// ---------------------------------------------------------------------------
// Signed files
// ---------------------------------------------------------------------------

/// The file of this key is noted as one of the distribution of the repository.
pub open spec fn owns(
    owners: Seq<OwnerModel>,
    repo_key: Seq<char>,
    distribution: Seq<char>,
    cache_key: Seq<char>,
) -> bool {
    exists|i: int|
        0 <= i < owners.len() && (#[trigger] owners[i]).repo_key == repo_key
            && owners[i].distribution == distribution && owners[i].cache_keys.contains(cache_key)
}

/// Noting a file for a distribution keeps everything that was noted, for whichever
/// distribution, and adds this one file alone.
pub proof fn noting_a_file_keeps_the_others(
    owners: Seq<OwnerModel>,
    repo_key: Seq<char>,
    distribution: Seq<char>,
    cache_key: Seq<char>,
    r: Seq<char>,
    d: Seq<char>,
    k: Seq<char>,
)
    ensures
        owns(with_owner(owners, repo_key, distribution, cache_key), r, d, k) <==> owns(
            owners,
            r,
            d,
            k,
        ) || (r == repo_key && d == distribution && k == cache_key),
{
    let after = with_owner(owners, repo_key, distribution, cache_key);
    let n = owner_slot(owners, repo_key, distribution) as int;
    first_owner(owners, repo_key, distribution);
    if owns(owners, r, d, k) {
        let i = choose|i: int|
            0 <= i < owners.len() && (#[trigger] owners[i]).repo_key == r && owners[i].distribution
                == d && owners[i].cache_keys.contains(k);
        let keys = owners[i].cache_keys;
        let j = choose|j: int| 0 <= j < keys.len() && keys[j] == k;
        assert(after[i].repo_key == r && after[i].distribution == d);
        assert(after[i].cache_keys[j] == k);
        assert(after[i].cache_keys.contains(k));
    }
    if r == repo_key && d == distribution && k == cache_key {
        if n < owners.len() {
            let keys = owners[n].cache_keys;
            if !keys.contains(k) {
                assert(after[n].cache_keys[keys.len() as int] == k);
            }
            assert(after[n].cache_keys.contains(k));
        } else {
            assert(after[n].cache_keys[0] == k);
            assert(after[n].cache_keys.contains(k));
        }
        assert(owns(after, r, d, k));
    }
    if owns(after, r, d, k) {
        let i = choose|i: int|
            0 <= i < after.len() && (#[trigger] after[i]).repo_key == r && after[i].distribution
                == d && after[i].cache_keys.contains(k);
        let keys = after[i].cache_keys;
        let j = choose|j: int| 0 <= j < keys.len() && keys[j] == k;
        if i < owners.len() {
            if i != n || owners[n].cache_keys.contains(cache_key) {
                assert(owners[i].cache_keys.contains(k));
            } else if j < owners[n].cache_keys.len() {
                assert(owners[n].cache_keys[j] == k);
                assert(owners[i].cache_keys.contains(k));
            }
        }
    }
}

proof fn first_owner(owners: Seq<OwnerModel>, repo_key: Seq<char>, distribution: Seq<char>)
    ensures
        owner_slot(owners, repo_key, distribution) <= owners.len(),
        owner_slot(owners, repo_key, distribution) < owners.len() ==> {
            let o = owners[owner_slot(owners, repo_key, distribution) as int];
            o.repo_key == repo_key && o.distribution == distribution
        },
    decreases owners.len(),
{
    if owners.len() > 0 {
        first_owner(owners.drop_first(), repo_key, distribution);
    }
}

/// No two owners are for the same distribution of a repository.
pub open spec fn owners_differ(owners: Seq<OwnerModel>) -> bool {
    forall|i: int, j: int|
        0 <= i < j < owners.len() ==> (#[trigger] owners[i]).repo_key != (
        #[trigger] owners[j]).repo_key || owners[i].distribution != owners[j].distribution
}

/// Dropping the files of a distribution drops every file that was noted for it, and no
/// other.
pub proof fn every_noted_file_is_dropped(
    cache: CacheModel,
    repo_key: Seq<char>,
    distribution: Seq<char>,
    k: Seq<char>,
)
    requires
        ascending(keys_of(cache.entries)),
        owners_differ(cache.owners),
    ensures
        lookup(cache_without(cache, repo_key, distribution).entries, k) == if owns(
            cache.owners,
            repo_key,
            distribution,
            k,
        ) {
            None
        } else {
            lookup(cache.entries, k)
        },
{
    let owners = cache.owners;
    let n = owner_slot(owners, repo_key, distribution) as int;
    first_owner(owners, repo_key, distribution);
    if n < owners.len() {
        dropped_are_gone(cache.entries, owners[n].cache_keys, k);
        if owns(owners, repo_key, distribution, k) {
            let i = choose|i: int|
                0 <= i < owners.len() && (#[trigger] owners[i]).repo_key == repo_key
                    && owners[i].distribution == distribution && owners[i].cache_keys.contains(k);
            if i < n {
                assert(owners[i].repo_key != owners[n].repo_key || owners[i].distribution
                    != owners[n].distribution);
            } else if n < i {
                assert(owners[n].repo_key != owners[i].repo_key || owners[n].distribution
                    != owners[i].distribution);
            }
        } else if owners[n].cache_keys.contains(k) {
            assert(owns(owners, repo_key, distribution, k));
        }
    } else if owns(owners, repo_key, distribution, k) {
        let i = choose|i: int|
            0 <= i < owners.len() && (#[trigger] owners[i]).repo_key == repo_key
                && owners[i].distribution == distribution && owners[i].cache_keys.contains(k);
        owner_is_found(owners, repo_key, distribution, i);
    }
}

proof fn owner_is_found(
    owners: Seq<OwnerModel>,
    repo_key: Seq<char>,
    distribution: Seq<char>,
    i: int,
)
    requires
        0 <= i < owners.len(),
        owners[i].repo_key == repo_key,
        owners[i].distribution == distribution,
    ensures
        owner_slot(owners, repo_key, distribution) <= i,
    decreases owners.len(),
{
    if !(owners[0].repo_key == repo_key && owners[0].distribution == distribution) {
        assert(owners.drop_first()[i - 1] == owners[i]);
        owner_is_found(owners.drop_first(), repo_key, distribution, i - 1);
    }
}

proof fn dropped_are_gone(entries: Seq<(Seq<char>, Seq<u8>)>, keys: Seq<Seq<char>>, k: Seq<char>)
    requires
        ascending(keys_of(entries)),
    ensures
        ascending(keys_of(dropped(entries, keys))),
        lookup(dropped(entries, keys), k) == if keys.contains(k) {
            None
        } else {
            lookup(entries, k)
        },
    decreases keys.len(),
{
    if keys.len() > 0 {
        let t = keys.drop_last();
        dropped_are_gone(entries, t, k);
        lookup_after_without(dropped(entries, t), keys.last(), k);
        if keys.contains(k) {
            let i = choose|i: int| 0 <= i < keys.len() && keys[i] == k;
            if i < t.len() {
                assert(t[i] == k);
            }
        }
        if t.contains(k) {
            let i = choose|i: int| 0 <= i < t.len() && t[i] == k;
            assert(keys[i] == k);
        }
        assert(keys[keys.len() - 1] == keys.last());
    }
}

} // verus!

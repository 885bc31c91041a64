//! Signed Release files, and the cache that keeps them.

use vstd::prelude::*;
use vstd::utf8::{encode_utf8, encode_utf8_decode_utf8};

use crate::digest::{calculate_sha256_hex, sha256_hex};
use crate::dists::copy_bytes;
use crate::hosted::bytes_view;
use crate::http::{file_reply, refuse, refuse2, refused, reply_of, verdict, FileReply, Refusal};
use crate::ordered::{ascending, keys_of, lookup, lookup_after_put, lookup_after_without, put, without, TextMap};
use crate::select::list_holds;
use crate::text::{cat5, opt_text, same_text};

verus! {

/// What is made of a Release by signing it.
#[derive(Clone, Copy, Debug, PartialEq, Eq, Structural)]
pub enum SignedReleaseVariant {
    /// The text, signed in the clear.
    InRelease,
    /// A detached signature.
    ReleaseGpg,
}

/// The cached files of a distribution of a repository.
#[derive(Debug)]
struct CacheOwner {
    repo_key: String,
    distribution: String,
    cache_keys: Vec<String>,
}

/// A cache of signed files, with an index by repository and distribution.
#[derive(Debug)]
pub struct SignedReleaseCache {
    entries: TextMap<Vec<u8>>,
    owners: Vec<CacheOwner>,
}

// ---------------------------------------------------------------------------
// Model
// ---------------------------------------------------------------------------

/// The name of a signed file.
pub open spec fn variant_name(variant: SignedReleaseVariant) -> Seq<char> {
    match variant {
        SignedReleaseVariant::InRelease => "InRelease"@,
        SignedReleaseVariant::ReleaseGpg => "Release.gpg"@,
    }
}

/// The content type of a signed file.
pub open spec fn variant_type(variant: SignedReleaseVariant) -> Seq<char> {
    match variant {
        SignedReleaseVariant::InRelease => "text/plain; charset=utf-8"@,
        SignedReleaseVariant::ReleaseGpg => "application/pgp-signature"@,
    }
}

/// What the key of a signed file is the digest of: the name of the file, the
/// fingerprint of the signing key and the unsigned text, with a zero between.
pub open spec fn key_source(
    variant: SignedReleaseVariant,
    unsigned_release: Seq<char>,
    fingerprint: Seq<char>,
) -> Seq<char> {
    variant_name(variant) + seq!['\0'] + fingerprint + seq!['\0'] + unsigned_release
}

/// The key of a signed file in the cache.
pub open spec fn signed_key(
    variant: SignedReleaseVariant,
    unsigned_release: Seq<char>,
    fingerprint: Seq<char>,
) -> Seq<char> {
    sha256_hex(encode_utf8(key_source(variant, unsigned_release, fingerprint)))
}

/// The cached files of a distribution of a repository.
#[verifier::ext_equal]
pub struct OwnerModel {
    pub repo_key: Seq<char>,
    pub distribution: Seq<char>,
    pub cache_keys: Seq<Seq<char>>,
}

impl DeepView for CacheOwner {
    type V = OwnerModel;

    closed spec fn deep_view(&self) -> OwnerModel {
        OwnerModel {
            repo_key: self.repo_key@,
            distribution: self.distribution@,
            cache_keys: self.cache_keys.deep_view(),
        }
    }
}

/// What a `SignedReleaseCache` holds.
#[verifier::ext_equal]
pub struct CacheModel {
    pub entries: Seq<(Seq<char>, Seq<u8>)>,
    pub owners: Seq<OwnerModel>,
}

impl DeepView for SignedReleaseCache {
    type V = CacheModel;

    closed spec fn deep_view(&self) -> CacheModel {
        CacheModel { entries: self.entries.deep_view(), owners: self.owners.deep_view() }
    }
}

/// The cache without any file.
pub open spec fn empty_cache() -> CacheModel {
    CacheModel { entries: seq![], owners: seq![] }
}

/// The position of the first owner of this name, or the number of owners.
pub open spec fn owner_slot(owners: Seq<OwnerModel>, repo_key: Seq<char>, distribution: Seq<char>) -> nat
    decreases owners.len(),
{
    if owners.len() == 0 || (owners[0].repo_key == repo_key && owners[0].distribution
        == distribution) {
        0
    } else {
        1 + owner_slot(owners.drop_first(), repo_key, distribution)
    }
}

/// The owners with one of them owning the file.
pub open spec fn with_owner(
    owners: Seq<OwnerModel>,
    repo_key: Seq<char>,
    distribution: Seq<char>,
    cache_key: Seq<char>,
) -> Seq<OwnerModel> {
    let i = owner_slot(owners, repo_key, distribution) as int;
    if i < owners.len() {
        if owners[i].cache_keys.contains(cache_key) {
            owners
        } else {
            owners.update(
                i,
                OwnerModel { cache_keys: owners[i].cache_keys.push(cache_key), ..owners[i] },
            )
        }
    } else {
        owners.push(OwnerModel { repo_key, distribution, cache_keys: seq![cache_key] })
    }
}

/// The cache with one file more. A full cache is emptied first.
pub open spec fn cache_with(
    cache: CacheModel,
    max_entries: nat,
    repo_key: Seq<char>,
    distribution: Seq<char>,
    cache_key: Seq<char>,
    bytes: Seq<u8>,
) -> CacheModel {
    let room = if cache.entries.len() >= max_entries {
        empty_cache()
    } else {
        cache
    };
    CacheModel {
        entries: put(room.entries, cache_key, bytes),
        owners: with_owner(room.owners, repo_key, distribution, cache_key),
    }
}

/// The entries without those of the keys.
pub open spec fn dropped(entries: Seq<(Seq<char>, Seq<u8>)>, keys: Seq<Seq<char>>) -> Seq<
    (Seq<char>, Seq<u8>),
>
    decreases keys.len(),
{
    if keys.len() == 0 {
        entries
    } else {
        without(dropped(entries, keys.drop_last()), keys.last())
    }
}

/// The cache without the files of a distribution of a repository.
pub open spec fn cache_without(cache: CacheModel, repo_key: Seq<char>, distribution: Seq<char>) -> CacheModel {
    let i = owner_slot(cache.owners, repo_key, distribution) as int;
    if i < cache.owners.len() {
        CacheModel {
            entries: dropped(cache.entries, cache.owners[i].cache_keys),
            owners: cache.owners.remove(i),
        }
    } else {
        cache
    }
}

// ---------------------------------------------------------------------------
// Laws
// ---------------------------------------------------------------------------

proof fn first_zero(a: Seq<char>, b: Seq<char>, c: Seq<char>, d: Seq<char>)
    requires
        a + seq!['\0'] + b == c + seq!['\0'] + d,
        !a.contains('\0'),
        !c.contains('\0'),
    ensures
        a == c,
        b == d,
{
    let s = a + seq!['\0'] + b;
    let t = c + seq!['\0'] + d;
    assert(s[a.len() as int] == '\0');
    assert(t[c.len() as int] == '\0');
    if a.len() < c.len() {
        assert(t[a.len() as int] == c[a.len() as int]);
        assert(c.contains('\0'));
    }
    if c.len() < a.len() {
        assert(s[c.len() as int] == a[c.len() as int]);
        assert(a.contains('\0'));
    }
    assert forall|i: int| 0 <= i < a.len() implies a[i] == c[i] by {
        assert(s[i] == t[i]);
    }
    assert(a =~= c);
    assert(s.len() == t.len());
    assert forall|i: int| 0 <= i < b.len() implies b[i] == d[i] by {
        assert(s[a.len() + 1 + i] == t[a.len() + 1 + i]);
    }
    assert(b =~= d);
}

/// Two signed files that differ in kind, in signing key or in unsigned text are
/// never taken for each other, but for a collision of the digest: what the key
/// is the digest of differs.
pub proof fn key_source_tells_apart(
    v1: SignedReleaseVariant,
    release1: Seq<char>,
    fingerprint1: Seq<char>,
    v2: SignedReleaseVariant,
    release2: Seq<char>,
    fingerprint2: Seq<char>,
)
    requires
        !fingerprint1.contains('\0'),
        !fingerprint2.contains('\0'),
        encode_utf8(key_source(v1, release1, fingerprint1)) == encode_utf8(
            key_source(v2, release2, fingerprint2),
        ),
    ensures
        v1 == v2,
        release1 == release2,
        fingerprint1 == fingerprint2,
{
    let s = key_source(v1, release1, fingerprint1);
    let t = key_source(v2, release2, fingerprint2);
    encode_utf8_decode_utf8(s);
    encode_utf8_decode_utf8(t);
    assert(s == t);
    reveal_strlit("InRelease");
    reveal_strlit("Release.gpg");
    let a = variant_name(v1);
    let c = variant_name(v2);
    let b = fingerprint1 + seq!['\0'] + release1;
    let d = fingerprint2 + seq!['\0'] + release2;
    assert(s =~= a + seq!['\0'] + b);
    assert(t =~= c + seq!['\0'] + d);
    first_zero(a, b, c, d);
    first_zero(fingerprint1, release1, fingerprint2, release2);
    assert("InRelease"@.len() != "Release.gpg"@.len());
}

/// The cache gives back what was put into it, and keeps its other files unless
/// it was full.
pub proof fn cache_gives_back(
    cache: CacheModel,
    max_entries: nat,
    repo_key: Seq<char>,
    distribution: Seq<char>,
    cache_key: Seq<char>,
    bytes: Seq<u8>,
    other: Seq<char>,
)
    requires
        ascending(keys_of(cache.entries)),
    ensures
        ({
            let after = cache_with(cache, max_entries, repo_key, distribution, cache_key, bytes);
            &&& ascending(keys_of(after.entries))
            &&& lookup(after.entries, cache_key) == Some(bytes)
            &&& other != cache_key && cache.entries.len() < max_entries ==> lookup(
                after.entries,
                other,
            ) == lookup(cache.entries, other)
        }),
{
    let room = if cache.entries.len() >= max_entries {
        empty_cache()
    } else {
        cache
    };
    assert(ascending(keys_of(empty_cache().entries)));
    lookup_after_put(room.entries, cache_key, bytes, other);
}

/// The cache never holds more than its limit, once that is more than nothing.
pub proof fn cache_stays_in_limit(
    cache: CacheModel,
    max_entries: nat,
    repo_key: Seq<char>,
    distribution: Seq<char>,
    cache_key: Seq<char>,
    bytes: Seq<u8>,
)
    requires
        max_entries > 0,
    ensures
        cache_with(cache, max_entries, repo_key, distribution, cache_key, bytes).entries.len()
            <= max_entries,
{
    crate::ordered::slot_cuts(keys_of(cache.entries), cache_key);
    crate::ordered::slot_cuts(keys_of(empty_cache().entries), cache_key);
}

proof fn owner_slot_cuts(owners: Seq<OwnerModel>, repo_key: Seq<char>, distribution: Seq<char>)
    ensures
        owner_slot(owners, repo_key, distribution) <= owners.len(),
        owner_slot(owners, repo_key, distribution) < owners.len() ==> {
            let o = owners[owner_slot(owners, repo_key, distribution) as int];
            o.repo_key == repo_key && o.distribution == distribution
        },
        forall|i: int|
            0 <= i < owner_slot(owners, repo_key, distribution) ==> !((#[trigger] owners[i]).repo_key
                == repo_key && owners[i].distribution == distribution),
    decreases owners.len(),
{
    if owners.len() > 0 && !(owners[0].repo_key == repo_key && owners[0].distribution
        == distribution) {
        let t = owners.drop_first();
        owner_slot_cuts(t, repo_key, distribution);
        assert forall|i: int| 0 <= i < owner_slot(owners, repo_key, distribution) implies !((
        #[trigger] owners[i]).repo_key == repo_key && owners[i].distribution == distribution) by {
            if i > 0 {
                assert(owners[i] == t[i - 1]);
            }
        }
    }
}

proof fn owner_slot_is(
    owners: Seq<OwnerModel>,
    repo_key: Seq<char>,
    distribution: Seq<char>,
    n: int,
)
    requires
        0 <= n <= owners.len(),
        n < owners.len() ==> owners[n].repo_key == repo_key && owners[n].distribution
            == distribution,
        forall|i: int|
            0 <= i < n ==> !((#[trigger] owners[i]).repo_key == repo_key && owners[i].distribution
                == distribution),
    ensures
        owner_slot(owners, repo_key, distribution) == n,
{
    owner_slot_cuts(owners, repo_key, distribution);
    let p = owner_slot(owners, repo_key, distribution) as int;
    if p < n {
        assert(owners[p].repo_key == repo_key);
    }
    if n < p {
        assert(owners[n].repo_key == repo_key);
    }
}

proof fn dropped_law(entries: Seq<(Seq<char>, Seq<u8>)>, keys: Seq<Seq<char>>, key: Seq<char>)
    requires
        ascending(keys_of(entries)),
    ensures
        ascending(keys_of(dropped(entries, keys))),
        lookup(dropped(entries, keys), key) == (if keys.contains(key) {
            None
        } else {
            lookup(entries, key)
        }),
    decreases keys.len(),
{
    if keys.len() > 0 {
        let rest = keys.drop_last();
        dropped_law(entries, rest, key);
        dropped_law(entries, rest, keys.last());
        lookup_after_without(dropped(entries, rest), keys.last(), key);
        if keys.contains(key) {
            let i = choose|i: int| 0 <= i < keys.len() && keys[i] == key;
            if i < rest.len() {
                assert(rest[i] == key);
            }
        }
        if rest.contains(key) {
            let i = choose|i: int| 0 <= i < rest.len() && rest[i] == key;
            assert(keys[i] == key);
        }
        assert(keys[keys.len() - 1] == keys.last());
    }
}

/// After the files of a distribution are dropped, what was put in for it is no
/// longer served; every file that it does not own is served as before.
pub proof fn invalidation_law(
    cache: CacheModel,
    max_entries: nat,
    repo_key: Seq<char>,
    distribution: Seq<char>,
    cache_key: Seq<char>,
    bytes: Seq<u8>,
    other: Seq<char>,
)
    requires
        ascending(keys_of(cache.entries)),
    ensures
        ({
            let after = cache_with(cache, max_entries, repo_key, distribution, cache_key, bytes);
            let cleared = cache_without(after, repo_key, distribution);
            let i = owner_slot(after.owners, repo_key, distribution) as int;
            &&& lookup(cleared.entries, cache_key) is None
            &&& i < after.owners.len()
            &&& !after.owners[i].cache_keys.contains(other) ==> lookup(cleared.entries, other)
                == lookup(after.entries, other)
        }),
{
    let room = if cache.entries.len() >= max_entries {
        empty_cache()
    } else {
        cache
    };
    let after = cache_with(cache, max_entries, repo_key, distribution, cache_key, bytes);
    owner_slot_cuts(room.owners, repo_key, distribution);
    let n = owner_slot(room.owners, repo_key, distribution) as int;
    owner_slot_is(after.owners, repo_key, distribution, n);
    let keys = after.owners[n].cache_keys;
    if n < room.owners.len() {
        if !room.owners[n].cache_keys.contains(cache_key) {
            assert(keys[keys.len() - 1] == cache_key);
        }
    } else {
        assert(keys[0] == cache_key);
    }
    assert(keys.contains(cache_key));
    cache_gives_back(cache, max_entries, repo_key, distribution, cache_key, bytes, other);
    dropped_law(after.entries, keys, cache_key);
    dropped_law(after.entries, keys, other);
}

// ---------------------------------------------------------------------------
// Keys
// ---------------------------------------------------------------------------

impl SignedReleaseVariant {
    /// The name of the signed file.
    pub fn as_str(self) -> (r: &'static str)
        ensures
            r@ == variant_name(self),
    {
        match self {
            SignedReleaseVariant::InRelease => "InRelease",
            SignedReleaseVariant::ReleaseGpg => "Release.gpg",
        }
    }
}

/// The key of a signed file in the cache.
pub fn signed_release_cache_key(
    variant: SignedReleaseVariant,
    unsigned_release: &str,
    key_fingerprint: &str,
) -> (r: String)
    ensures
        r@ == signed_key(variant, unsigned_release@, key_fingerprint@),
        r@.len() == 64,
{
    let source = cat5(variant.as_str(), "\0", key_fingerprint, "\0", unsigned_release);
    proof {
        reveal_strlit("\0");
        assert("\0"@ =~= seq!['\0']);
        assert(source@ =~= key_source(variant, unsigned_release@, key_fingerprint@));
    }
    calculate_sha256_hex(source.as_str().as_bytes())
}

// ---------------------------------------------------------------------------
// Cache
// ---------------------------------------------------------------------------

impl SignedReleaseCache {
    /// A cache without any file.
    pub fn new() -> (r: Self)
        ensures
            r.deep_view() == empty_cache(),
    {
        let owners: Vec<CacheOwner> = Vec::new();
        assert(owners.deep_view() =~= seq![]);
        SignedReleaseCache { entries: TextMap::new(), owners }
    }

    /// The number of cached files.
    pub fn len(&self) -> (r: usize)
        ensures
            r == self.deep_view().entries.len(),
    {
        self.entries.len()
    }

    /// No file is cached.
    pub fn is_empty(&self) -> (r: bool)
        ensures
            r == (self.deep_view().entries.len() == 0),
    {
        self.entries.is_empty()
    }

    /// A cached file.
    pub fn get(&self, cache_key: &str) -> (r: Option<&Vec<u8>>)
        ensures
            (match r {
                Some(bytes) => Some(bytes@),
                None => None,
            }) == lookup(self.deep_view().entries, cache_key@),
    {
        match self.entries.get(cache_key) {
            Some(bytes) => {
                proof {
                    bytes_view(*bytes);
                }
                Some(bytes)
            },
            None => None,
        }
    }

    /// The position of the owner of this name.
    fn find_owner(&self, repo_key: &str, distribution: &str) -> (r: usize)
        ensures
            r == owner_slot(self.deep_view().owners, repo_key@, distribution@),
            r <= self.owners.len(),
    {
        let ghost all = self.owners.deep_view();
        let mut i: usize = 0;
        while i < self.owners.len() && !(same_text(self.owners[i].repo_key.as_str(), repo_key)
            && same_text(self.owners[i].distribution.as_str(), distribution))
            invariant
                i <= self.owners.len(),
                all == self.owners.deep_view(),
                forall|j: int|
                    0 <= j < i ==> !((#[trigger] all[j]).repo_key == repo_key@
                        && all[j].distribution == distribution@),
            decreases self.owners.len() - i,
        {
            assert(all[i as int] == self.owners[i as int].deep_view());
            i += 1;
        }
        proof {
            if i < self.owners.len() {
                assert(all[i as int] == self.owners[i as int].deep_view());
            }
            owner_slot_is(all, repo_key@, distribution@, i as int);
        }
        i
    }

    /// Puts a signed file into the cache. A cache that holds as many files as it
    /// may is emptied first.
    pub fn put(
        &mut self,
        max_entries: usize,
        repo_key: &str,
        distribution: &str,
        cache_key: &str,
        bytes: Vec<u8>,
    )
        ensures
            final(self).deep_view() == cache_with(
                old(self).deep_view(),
                max_entries as nat,
                repo_key@,
                distribution@,
                cache_key@,
                bytes@,
            ),
    {
        if self.entries.len() >= max_entries {
            *self = SignedReleaseCache::new();
        }
        let ghost room = self.deep_view();
        proof {
            bytes_view(bytes);
        }
        self.entries.insert(cache_key.to_string(), bytes);
        let i = self.find_owner(repo_key, distribution);
        if i < self.owners.len() {
            let ghost owner = self.owners[i as int].deep_view();
            assert(room.owners[i as int] == owner);
            if !list_holds(self.owners[i].cache_keys.as_slice(), cache_key) {
                let mut changed = self.owners.remove(i);
                let ghost before = changed.cache_keys.deep_view();
                changed.cache_keys.push(cache_key.to_string());
                assert(changed.cache_keys.deep_view() =~= before.push(cache_key@));
                let ghost m = changed.deep_view();
                self.owners.insert(i, changed);
                assert(self.owners.deep_view() =~= room.owners.update(i as int, m));
            }
        } else {
            let mut cache_keys: Vec<String> = Vec::new();
            cache_keys.push(cache_key.to_string());
            assert(cache_keys.deep_view() =~= seq![cache_key@]);
            let owner = CacheOwner {
                repo_key: repo_key.to_string(),
                distribution: distribution.to_string(),
                cache_keys,
            };
            let ghost m = owner.deep_view();
            self.owners.push(owner);
            assert(self.owners.deep_view() =~= room.owners.push(m));
        }
    }

    /// Drops the files of a distribution of a repository.
    pub fn invalidate(&mut self, repo_key: &str, distribution: &str)
        ensures
            final(self).deep_view() == cache_without(
                old(self).deep_view(),
                repo_key@,
                distribution@,
            ),
    {
        let ghost before = self.deep_view();
        let i = self.find_owner(repo_key, distribution);
        if i >= self.owners.len() {
            return;
        }
        let owner = self.owners.remove(i);
        assert(self.owners.deep_view() =~= before.owners.remove(i as int));
        let ghost keys = before.owners[i as int].cache_keys;
        assert(owner.cache_keys.deep_view() == keys);
        let ghost owners = self.owners.deep_view();
        assert(keys.take(0) =~= seq![]);
        for k in 0..owner.cache_keys.len()
            invariant
                owner.cache_keys.deep_view() == keys,
                self.owners.deep_view() == owners,
                self.entries.deep_view() == dropped(before.entries, keys.take(k as int)),
        {
            proof {
                assert(keys.take(k + 1).drop_last() =~= keys.take(k as int));
                assert(keys.take(k + 1).last() == owner.cache_keys[k as int]@);
            }
            self.entries.remove(owner.cache_keys[k].as_str());
        }
        assert(keys.take(keys.len() as int) =~= keys);
    }
}

// ---------------------------------------------------------------------------
// Signing
// ---------------------------------------------------------------------------

/// The signing key of a repository, or the refusal where there is none. Nothing
/// is ever handed out unsigned in its place.
pub fn require_active_signing_key<K>(found: std::result::Result<Option<K>, String>) -> (r: std::result::Result<
    K,
    Refusal,
>)
    ensures
        match found {
            Ok(Some(key)) => r == Ok::<K, Refusal>(key),
            Ok(None) => r matches Err(refusal) && refusal.deep_view() == refused(
                404,
                "No signing key configured for this repository"@,
            ),
            Err(fault) => r matches Err(refusal) && refusal.deep_view() == refused(
                500,
                "Failed to load signing key: "@ + fault@,
            ),
        },
{
    match found {
        Ok(Some(key)) => Ok(key),
        Ok(None) => Err(refuse(404, "No signing key configured for this repository")),
        Err(fault) => Err(refuse2(500, "Failed to load signing key: ", fault.as_str())),
    }
}

/// The public key of a repository, or the refusal where there is none.
pub fn public_key_reply(found: std::result::Result<Option<String>, String>) -> (r: std::result::Result<
    FileReply,
    Refusal,
>)
    ensures
        verdict(r) == (match found {
            Ok(Some(pem)) => Ok(reply_of("application/pgp-keys"@, encode_utf8(pem@))),
            Ok(None) => Err(refused(404, "No signing key configured for this repository"@)),
            Err(fault) => Err(refused(500, "Failed to retrieve public key: "@ + fault@)),
        }),
{
    match found {
        Ok(Some(pem)) => Ok(
            file_reply("application/pgp-keys".to_string(), copy_bytes(pem.as_str().as_bytes())),
        ),
        Ok(None) => Err(refuse(404, "No signing key configured for this repository")),
        Err(fault) => Err(refuse2(500, "Failed to retrieve public key: ", fault.as_str())),
    }
}

/// The fingerprint by which a signing key is told apart.
pub open spec fn fingerprint_of(fingerprint: Option<Seq<char>>) -> Seq<char> {
    match fingerprint {
        Some(text) => text,
        None => "unknown"@,
    }
}

/// What is to be done for a signed file.
#[derive(Debug, PartialEq, Eq)]
pub enum SignStep {
    /// It was signed before.
    Serve(FileReply),
    /// It has to be signed, and goes into the cache under this key.
    Sign(String),
}

/// Hands out a signed file from the cache, or tells under which key it goes in.
pub fn begin_signed_release(
    cache: &SignedReleaseCache,
    variant: SignedReleaseVariant,
    release: &str,
    fingerprint: Option<&str>,
) -> (r: SignStep)
    ensures
        ({
            let key = signed_key(variant, release@, fingerprint_of(opt_text(fingerprint)));
            match lookup(cache.deep_view().entries, key) {
                Some(bytes) => r matches SignStep::Serve(reply) && reply.deep_view() == reply_of(
                    variant_type(variant),
                    bytes,
                ),
                None => r matches SignStep::Sign(k) && k@ == key,
            }
        }),
{
    let print = match fingerprint {
        Some(text) => text,
        None => "unknown",
    };
    let key = signed_release_cache_key(variant, release, print);
    match cache.get(key.as_str()) {
        Some(bytes) => SignStep::Serve(signed_reply(variant, copy_bytes(bytes.as_slice()))),
        None => SignStep::Sign(key),
    }
}

/// Hands out a signed file.
fn signed_reply(variant: SignedReleaseVariant, body: Vec<u8>) -> (r: FileReply)
    ensures
        r.deep_view() == reply_of(variant_type(variant), body@),
{
    let content_type = match variant {
        SignedReleaseVariant::InRelease => "text/plain; charset=utf-8",
        SignedReleaseVariant::ReleaseGpg => "application/pgp-signature",
    };
    file_reply(content_type.to_string(), body)
}

/// Takes what the signer made: it goes into the cache and is handed out. A
/// signer that failed leaves the cache as it was.
pub fn finish_signed_release(
    cache: &mut SignedReleaseCache,
    max_entries: usize,
    repo_key: &str,
    distribution: &str,
    cache_key: &str,
    variant: SignedReleaseVariant,
    signed: std::result::Result<Vec<u8>, String>,
) -> (r: std::result::Result<FileReply, Refusal>)
    ensures
        match signed {
            Ok(bytes) => {
                &&& r matches Ok(reply) && reply.deep_view() == reply_of(
                    variant_type(variant),
                    bytes@,
                )
                &&& final(cache).deep_view() == cache_with(
                    old(cache).deep_view(),
                    max_entries as nat,
                    repo_key@,
                    distribution@,
                    cache_key@,
                    bytes@,
                )
            },
            Err(fault) => {
                &&& r matches Err(refusal) && refusal.deep_view() == refused(
                    500,
                    "Failed to sign "@ + variant_name(variant) + ": "@ + fault@,
                )
                &&& final(cache).deep_view() == old(cache).deep_view()
            },
        },
{
    match signed {
        Ok(bytes) => {
            let body = copy_bytes(bytes.as_slice());
            cache.put(max_entries, repo_key, distribution, cache_key, bytes);
            Ok(signed_reply(variant, body))
        },
        Err(fault) => {
            let message = crate::text::cat4(
                "Failed to sign ",
                variant.as_str(),
                ": ",
                fault.as_str(),
            );
            Err(refuse(500, message.as_str()))
        },
    }
}

} // verus!

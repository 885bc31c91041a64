//! Keys that sign repository metadata, and what may be shown of them.

use uuid::Uuid;
use vstd::prelude::*;

verus! {

/// `uuid::Uuid`, carried through as it is.
#[verifier::external_type_specification]
#[verifier::external_body]
pub struct ExUuid(uuid::Uuid);

/// A moment: the seconds since the start of 1970 in UTC, and the nanoseconds
/// that have passed of the next second.
#[derive(Clone, Copy, Debug, PartialEq, Eq, PartialOrd, Ord)]
pub struct Timestamp {
    pub seconds: i64,
    pub nanos: u32,
}

/// A key that signs metadata, or a public key that only verifies it.
#[derive(Debug)]
pub struct SigningKey {
    pub id: Uuid,
    pub repository_id: Option<Uuid>,
    pub name: String,
    pub key_type: String,
    pub fingerprint: Option<String>,
    pub key_id: Option<String>,
    pub public_key_pem: String,
    /// The encrypted private key; none for a key that only verifies.
    pub private_key_enc: Option<Vec<u8>>,
    pub algorithm: String,
    pub uid_name: Option<String>,
    pub uid_email: Option<String>,
    pub expires_at: Option<Timestamp>,
    pub is_active: bool,
    pub created_at: Timestamp,
    pub created_by: Option<Uuid>,
    pub rotated_from: Option<Uuid>,
    pub last_used_at: Option<Timestamp>,
}

/// What may be shown of a key.
#[derive(Debug)]
pub struct SigningKeyPublic {
    pub id: Uuid,
    pub repository_id: Option<Uuid>,
    pub name: String,
    pub key_type: String,
    pub fingerprint: Option<String>,
    pub key_id: Option<String>,
    pub public_key_pem: String,
    /// The key can sign: its private part is here.
    pub can_sign: bool,
    pub algorithm: String,
    pub uid_name: Option<String>,
    pub uid_email: Option<String>,
    pub expires_at: Option<Timestamp>,
    pub is_active: bool,
    pub created_at: Timestamp,
    pub last_used_at: Option<Timestamp>,
}

/// How a repository signs.
#[derive(Debug)]
pub struct RepositorySigningConfig {
    pub id: Uuid,
    pub repository_id: Uuid,
    pub signing_key_id: Option<Uuid>,
    pub sign_metadata: bool,
    pub sign_packages: bool,
    pub require_signatures: bool,
    pub created_at: Timestamp,
    pub updated_at: Timestamp,
}

/// What may be shown of the key.
pub open spec fn public_view(k: SigningKey) -> SigningKeyPublic {
    SigningKeyPublic {
        id: k.id,
        repository_id: k.repository_id,
        name: k.name,
        key_type: k.key_type,
        fingerprint: k.fingerprint,
        key_id: k.key_id,
        public_key_pem: k.public_key_pem,
        can_sign: k.private_key_enc is Some,
        algorithm: k.algorithm,
        uid_name: k.uid_name,
        uid_email: k.uid_email,
        expires_at: k.expires_at,
        is_active: k.is_active,
        created_at: k.created_at,
        last_used_at: k.last_used_at,
    }
}

impl From<SigningKey> for SigningKeyPublic {
    fn from(k: SigningKey) -> (r: Self) {
        SigningKeyPublic {
            id: k.id,
            repository_id: k.repository_id,
            name: k.name,
            key_type: k.key_type,
            fingerprint: k.fingerprint,
            key_id: k.key_id,
            public_key_pem: k.public_key_pem,
            can_sign: k.private_key_enc.is_some(),
            algorithm: k.algorithm,
            uid_name: k.uid_name,
            uid_email: k.uid_email,
            expires_at: k.expires_at,
            is_active: k.is_active,
            created_at: k.created_at,
            last_used_at: k.last_used_at,
        }
    }
}

impl vstd::std_specs::convert::FromSpecImpl<SigningKey> for SigningKeyPublic {
    open spec fn obeys_from_spec() -> bool {
        true
    }

    open spec fn from_spec(k: SigningKey) -> Self {
        public_view(k)
    }
}

/// A key without its private part cannot sign, and one with it can: the public
/// view says so, and says the same of two keys that differ in nothing but what
/// their private part is, who made them and which key they replace. It gives
/// nothing of that away.
pub proof fn public_view_hides_private_part(k: SigningKey, other: SigningKey)
    requires
        other == (SigningKey {
            private_key_enc: other.private_key_enc,
            created_by: other.created_by,
            rotated_from: other.rotated_from,
            ..k
        }),
        (k.private_key_enc is Some) == (other.private_key_enc is Some),
    ensures
        public_view(k).can_sign == (k.private_key_enc is Some),
        public_view(k) == public_view(other),
{
}

} // verus!

//! Debian repository metadata: parsing, generation, filtering and mirroring rules.

pub mod archive;
pub mod cache;
pub mod clock;
pub mod codec;
pub mod config;
pub mod control;
pub mod deb;
pub mod deb_laws;
pub mod digest;
pub mod dists;
pub mod dists_laws;
pub mod emit;
pub mod error;
pub mod generated;
pub mod generated_laws;
pub mod hosted;
pub mod hosted_laws;
pub mod http;
pub mod index;
pub mod index_laws;
pub mod members;
pub mod metadata_laws;
pub mod number;
pub mod ordered;
pub mod path_laws;
pub mod plan;
pub mod plan_laws;
pub mod publish_laws;
pub mod reader_laws;
pub mod release;
pub mod request_laws;
pub mod roundtrip;
pub mod roundtrip_packages;
pub mod roundtrip_release;
pub mod roundtrip_signed;
pub mod roundtrip_sources;
pub mod select;
pub mod select_laws;
pub mod serve;
pub mod signed;
pub mod signer;
pub mod signing_key;
pub mod sort;
pub mod stanza;
pub mod sync;
pub mod sync_laws;
pub mod sync_outcome;
pub mod sync_run;
pub mod text;
pub mod text_laws;
pub mod upload;
pub mod verify;
pub mod verify_laws;

//! How a repository is configured.

use vstd::prelude::*;

verus! {

/// When the package files of a mirror are fetched.
#[derive(Clone, Copy, Debug, PartialEq, Eq, Structural)]
pub enum DebianPackageFetchStrategy {
    /// When a client asks for them; they are kept.
    OnDemand,
    /// When a client asks for them; they are not kept.
    Passthrough,
    /// During the sync.
    PrefetchSelected,
}

/// The configuration of a repository.
#[derive(Debug)]
pub struct DebianRepositoryConfig {
    /// The paths of the distributions that are mirrored.
    pub distributions: Vec<String>,
    pub components: Vec<String>,
    pub architectures: Vec<String>,
    /// The repository has its index files at the root.
    pub flat_repository: bool,
    pub include_source_packages: bool,
    /// The queries that the packages of a mirror have to answer; none takes all.
    pub package_queries: Vec<String>,
    /// What the chosen packages depend on is taken with them.
    pub resolve_dependencies: bool,
    /// Upstream metadata has to carry a valid signature.
    pub verify_upstream_metadata: bool,
    /// The key that upstream metadata has to be signed with.
    pub upstream_gpg_key_id: Option<String>,
    /// Locally generated metadata is signed.
    pub signing_enabled: bool,
    /// Metadata is generated locally instead of being passed through.
    pub generated_metadata_enabled: bool,
    pub ignore_missing_indexes: bool,
    pub package_fetch_strategy: DebianPackageFetchStrategy,
}

/// What a `DebianRepositoryConfig` holds.
#[verifier::ext_equal]
pub struct ConfigModel {
    pub distributions: Seq<Seq<char>>,
    pub components: Seq<Seq<char>>,
    pub architectures: Seq<Seq<char>>,
    pub flat_repository: bool,
    pub include_source_packages: bool,
    pub package_queries: Seq<Seq<char>>,
    pub resolve_dependencies: bool,
    pub verify_upstream_metadata: bool,
    pub upstream_gpg_key_id: Option<Seq<char>>,
    pub signing_enabled: bool,
    pub generated_metadata_enabled: bool,
    pub ignore_missing_indexes: bool,
    pub package_fetch_strategy: DebianPackageFetchStrategy,
}

impl DeepView for DebianRepositoryConfig {
    type V = ConfigModel;

    open spec fn deep_view(&self) -> ConfigModel {
        ConfigModel {
            distributions: self.distributions.deep_view(),
            components: self.components.deep_view(),
            architectures: self.architectures.deep_view(),
            flat_repository: self.flat_repository,
            include_source_packages: self.include_source_packages,
            package_queries: self.package_queries.deep_view(),
            resolve_dependencies: self.resolve_dependencies,
            verify_upstream_metadata: self.verify_upstream_metadata,
            upstream_gpg_key_id: self.upstream_gpg_key_id.deep_view(),
            signing_enabled: self.signing_enabled,
            generated_metadata_enabled: self.generated_metadata_enabled,
            ignore_missing_indexes: self.ignore_missing_indexes,
            package_fetch_strategy: self.package_fetch_strategy,
        }
    }
}

impl Default for DebianRepositoryConfig {
    fn default() -> (r: Self)
        ensures
            r.deep_view() == (ConfigModel {
                distributions: seq![],
                components: seq![],
                architectures: seq![],
                flat_repository: false,
                include_source_packages: false,
                package_queries: seq![],
                resolve_dependencies: false,
                verify_upstream_metadata: false,
                upstream_gpg_key_id: None,
                signing_enabled: false,
                generated_metadata_enabled: false,
                ignore_missing_indexes: false,
                package_fetch_strategy: DebianPackageFetchStrategy::OnDemand,
            }),
    {
        let distributions: Vec<String> = Vec::new();
        let components: Vec<String> = Vec::new();
        let architectures: Vec<String> = Vec::new();
        assert(distributions.deep_view() =~= seq![]);
        assert(components.deep_view() =~= seq![]);
        let package_queries: Vec<String> = Vec::new();
        assert(architectures.deep_view() =~= seq![]);
        assert(package_queries.deep_view() =~= seq![]);
        DebianRepositoryConfig {
            distributions,
            components,
            architectures,
            flat_repository: false,
            include_source_packages: false,
            package_queries,
            resolve_dependencies: false,
            verify_upstream_metadata: false,
            upstream_gpg_key_id: None,
            signing_enabled: false,
            generated_metadata_enabled: false,
            ignore_missing_indexes: false,
            package_fetch_strategy: DebianPackageFetchStrategy::OnDemand,
        }
    }
}

} // verus!

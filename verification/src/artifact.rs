//! Artifact repository configuration and the resolution order for the
//! repository an artifact is read from or written to.

use vstd::prelude::*;

use crate::errors::ArtifactError;

verus! {

/// Reference to a key of a secret, by names only. The secret's value is
/// fetched lazily at use time and never cached across nodes, since
/// secrets may rotate mid-workflow; nothing in this crate reads it.
#[derive(Clone, Debug, PartialEq, Eq)]
pub struct SecretRef {
    pub name: String,
    pub key: String,
}

/// Controller configuration for an S3 artifact repository.
#[derive(Clone, Debug, PartialEq, Eq)]
pub struct S3ArtifactRepository {
    pub access_key_secret: Option<SecretRef>,
    pub bucket: Option<String>,
    pub ca_secret: Option<SecretRef>,
    pub create_bucket_if_not_present: Option<bool>,
    pub endpoint: Option<String>,
    pub insecure: Option<bool>,
    pub key_format: Option<String>,
    pub key_prefix: Option<String>,
    pub region: Option<String>,
    pub role_arn: Option<String>,
    pub secret_key_secret: Option<SecretRef>,
    pub use_sdk_creds: Option<bool>,
}

impl S3ArtifactRepository {
    /// An empty configuration: every field unset.
    pub fn new() -> (r: S3ArtifactRepository)
        ensures
            r.access_key_secret is None,
            r.bucket is None,
            r.ca_secret is None,
            r.create_bucket_if_not_present is None,
            r.endpoint is None,
            r.insecure is None,
            r.key_format is None,
            r.key_prefix is None,
            r.region is None,
            r.role_arn is None,
            r.secret_key_secret is None,
            r.use_sdk_creds is None,
    {
        S3ArtifactRepository {
            access_key_secret: None,
            bucket: None,
            ca_secret: None,
            create_bucket_if_not_present: None,
            endpoint: None,
            insecure: None,
            key_format: None,
            key_prefix: None,
            region: None,
            role_arn: None,
            secret_key_secret: None,
            use_sdk_creds: None,
        }
    }
}

/// Controller configuration for an OSS artifact repository.
#[derive(Clone, Debug, PartialEq, Eq)]
pub struct OSSArtifactRepository {
    pub access_key_secret: Option<SecretRef>,
    pub bucket: Option<String>,
    pub create_bucket_if_not_present: Option<bool>,
    pub endpoint: Option<String>,
    pub key_format: Option<String>,
    pub secret_key_secret: Option<SecretRef>,
    pub security_token: Option<String>,
    pub use_sdk_creds: Option<bool>,
}

impl OSSArtifactRepository {
    /// An empty configuration: every field unset.
    pub fn new() -> (r: OSSArtifactRepository)
        ensures
            r.access_key_secret is None,
            r.bucket is None,
            r.create_bucket_if_not_present is None,
            r.endpoint is None,
            r.key_format is None,
            r.secret_key_secret is None,
            r.security_token is None,
            r.use_sdk_creds is None,
    {
        OSSArtifactRepository {
            access_key_secret: None,
            bucket: None,
            create_bucket_if_not_present: None,
            endpoint: None,
            key_format: None,
            secret_key_secret: None,
            security_token: None,
            use_sdk_creds: None,
        }
    }
}

/// One artifact repository, of whichever backend.
#[derive(Clone, Debug, PartialEq, Eq)]
pub enum ArtifactRepository {
    S3(S3ArtifactRepository),
    Oss(OSSArtifactRepository),
}

/// Where an artifact's bytes live once its repository is resolved.
#[derive(Clone, Debug, PartialEq, Eq)]
pub enum ArtifactResolution {
    /// Read and write through the carried repository.
    Repository(ArtifactRepository),
    /// The artifact carries its bytes inline; no repository is needed.
    Inline,
}

/// Pick the effective repository for one artifact, at node-start time:
/// the repository set on the artifact itself wins, then the enclosing
/// template's archive location, then the orchestrator-wide default. An
/// artifact with none of the three is allowed only when it is inline.
pub fn resolve_repository(
    explicit: Option<ArtifactRepository>,
    archive: Option<ArtifactRepository>,
    instance_default: Option<ArtifactRepository>,
    inline: bool,
) -> (r: Result<ArtifactResolution, ArtifactError>)
    ensures
        explicit matches Some(e) ==> r == Ok::<ArtifactResolution, ArtifactError>(
            ArtifactResolution::Repository(e),
        ),
        explicit is None ==> (archive matches Some(a) ==> r == Ok::<
            ArtifactResolution,
            ArtifactError,
        >(ArtifactResolution::Repository(a))),
        explicit is None && archive is None ==> (instance_default matches Some(d) ==> r == Ok::<
            ArtifactResolution,
            ArtifactError,
        >(ArtifactResolution::Repository(d))),
        explicit is None && archive is None && instance_default is None && inline ==> r == Ok::<
            ArtifactResolution,
            ArtifactError,
        >(ArtifactResolution::Inline),
        r is Err <==> explicit is None && archive is None && instance_default is None && !inline,
        r is Err ==> r == Err::<ArtifactResolution, ArtifactError>(
            ArtifactError::NoRepositoryConfigured,
        ),
{
    match explicit {
        Some(e) => Ok(ArtifactResolution::Repository(e)),
        None => match archive {
            Some(a) => Ok(ArtifactResolution::Repository(a)),
            None => match instance_default {
                Some(d) => Ok(ArtifactResolution::Repository(d)),
                None => if inline {
                    Ok(ArtifactResolution::Inline)
                } else {
                    Err(ArtifactError::NoRepositoryConfigured)
                },
            },
        },
    }
}

} // verus!

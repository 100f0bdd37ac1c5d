//! Validated configuration: the raw values the configuration collaborator
//! read are checked once, and the pipeline only ever sees the resulting
//! strongly-typed [`Config`].

use vstd::prelude::*;
use vstd::string::StrSliceExecFns;

verus! {

/// One mebibyte, the unit of the configured size limit.
pub const BYTES_PER_MIB: u64 = 1048576;

/// The size limit, in mebibytes, used when none is configured.
pub const DEFAULT_SIZE_LIMIT_MIB: u64 = 25;

/// The raw configuration values as the configuration collaborator read
/// them: each `None` is a missing entry. `manga_dir_on_disk` reports the
/// collaborator's check that the configured directory exists.
pub struct RawConfig {
    pub server: Option<String>,
    pub username: Option<String>,
    pub password: Option<String>,
    pub from_email: Option<String>,
    pub to_email: Option<String>,
    pub subject: Option<String>,
    pub manga_dir: Option<String>,
    pub manga_dir_on_disk: bool,
    pub size_limit_mib: Option<i64>,
    pub delete_after_processing: Option<bool>,
}

/// The validated mail settings.
#[derive(Debug, PartialEq, Eq)]
pub struct SmtpConfig {
    pub server: String,
    pub username: String,
    pub password: String,
    pub from_email: String,
    pub to_email: String,
    pub subject: String,
}

/// The validated configuration the pipeline runs under.
#[derive(Debug, PartialEq, Eq)]
pub struct Config {
    pub smtp: SmtpConfig,
    pub manga_dir: String,
    pub size_budget_bytes: u64,
    pub delete_after_processing: bool,
}

/// Why a raw configuration was rejected.
#[derive(Clone, Copy, Debug, PartialEq, Eq, Structural)]
pub enum ConfigError {
    MissingServer,
    MissingUsername,
    MissingPassword,
    MissingFromEmail,
    MissingToEmail,
    MissingSubject,
    MissingMangaDir,
    MangaDirNotOnDisk,
    EmptyUsername,
    EmptyPassword,
    EmptyFromEmail,
    EmptyToEmail,
    EmptySubject,
    NonPositiveSizeLimit,
    OversizedSizeLimit,
}

/// The first check a raw configuration fails, if any: presence of every
/// entry, the directory's existence on disk, non-emptiness of the mail
/// entries, and a size limit that is positive and in range.
pub open spec fn config_error_spec(raw: RawConfig) -> Option<ConfigError> {
    if raw.server is None {
        Some(ConfigError::MissingServer)
    } else if raw.username is None {
        Some(ConfigError::MissingUsername)
    } else if raw.password is None {
        Some(ConfigError::MissingPassword)
    } else if raw.from_email is None {
        Some(ConfigError::MissingFromEmail)
    } else if raw.to_email is None {
        Some(ConfigError::MissingToEmail)
    } else if raw.subject is None {
        Some(ConfigError::MissingSubject)
    } else if raw.manga_dir is None {
        Some(ConfigError::MissingMangaDir)
    } else if !raw.manga_dir_on_disk {
        Some(ConfigError::MangaDirNotOnDisk)
    } else if raw.username->0@.len() == 0 {
        Some(ConfigError::EmptyUsername)
    } else if raw.password->0@.len() == 0 {
        Some(ConfigError::EmptyPassword)
    } else if raw.from_email->0@.len() == 0 {
        Some(ConfigError::EmptyFromEmail)
    } else if raw.to_email->0@.len() == 0 {
        Some(ConfigError::EmptyToEmail)
    } else if raw.subject->0@.len() == 0 {
        Some(ConfigError::EmptySubject)
    } else if raw.size_limit_mib matches Some(s) && s < 1 {
        Some(ConfigError::NonPositiveSizeLimit)
    } else if raw.size_limit_mib matches Some(s) && s > u64::MAX as int / BYTES_PER_MIB as int {
        Some(ConfigError::OversizedSizeLimit)
    } else {
        None
    }
}

/// The configured size limit in mebibytes, with the default applied.
pub open spec fn size_limit_mib_spec(raw: RawConfig) -> int {
    match raw.size_limit_mib {
        Some(s) => s as int,
        None => DEFAULT_SIZE_LIMIT_MIB as int,
    }
}

/// Validate a raw configuration: exactly when no check fails, the
/// validated configuration carries the raw values through, with the size
/// limit defaulted and converted to bytes.
pub fn validate_config(raw: RawConfig) -> (r: Result<Config, ConfigError>)
    ensures
        r is Ok <==> config_error_spec(raw) is None,
        r matches Err(e) ==> Some(e) == config_error_spec(raw),
        r matches Ok(c) ==> {
            &&& c.smtp.server == raw.server->0
            &&& c.smtp.username == raw.username->0
            &&& c.smtp.password == raw.password->0
            &&& c.smtp.from_email == raw.from_email->0
            &&& c.smtp.to_email == raw.to_email->0
            &&& c.smtp.subject == raw.subject->0
            &&& c.manga_dir == raw.manga_dir->0
            &&& c.size_budget_bytes == size_limit_mib_spec(raw) * BYTES_PER_MIB
            &&& c.size_budget_bytes >= BYTES_PER_MIB
            &&& c.delete_after_processing == (raw.delete_after_processing == Some(true))
        },
{
    let RawConfig {
        server,
        username,
        password,
        from_email,
        to_email,
        subject,
        manga_dir,
        manga_dir_on_disk,
        size_limit_mib,
        delete_after_processing,
    } = raw;
    let server = match server {
        Some(s) => s,
        None => {
            return Err(ConfigError::MissingServer);
        },
    };
    let username = match username {
        Some(s) => s,
        None => {
            return Err(ConfigError::MissingUsername);
        },
    };
    let password = match password {
        Some(s) => s,
        None => {
            return Err(ConfigError::MissingPassword);
        },
    };
    let from_email = match from_email {
        Some(s) => s,
        None => {
            return Err(ConfigError::MissingFromEmail);
        },
    };
    let to_email = match to_email {
        Some(s) => s,
        None => {
            return Err(ConfigError::MissingToEmail);
        },
    };
    let subject = match subject {
        Some(s) => s,
        None => {
            return Err(ConfigError::MissingSubject);
        },
    };
    let manga_dir = match manga_dir {
        Some(s) => s,
        None => {
            return Err(ConfigError::MissingMangaDir);
        },
    };
    if !manga_dir_on_disk {
        return Err(ConfigError::MangaDirNotOnDisk);
    }
    if username.as_str().unicode_len() == 0 {
        return Err(ConfigError::EmptyUsername);
    }
    if password.as_str().unicode_len() == 0 {
        return Err(ConfigError::EmptyPassword);
    }
    if from_email.as_str().unicode_len() == 0 {
        return Err(ConfigError::EmptyFromEmail);
    }
    if to_email.as_str().unicode_len() == 0 {
        return Err(ConfigError::EmptyToEmail);
    }
    if subject.as_str().unicode_len() == 0 {
        return Err(ConfigError::EmptySubject);
    }
    let limit_mib: u64 = match size_limit_mib {
        Some(s) => {
            if s < 1 {
                return Err(ConfigError::NonPositiveSizeLimit);
            }
            if s as u64 > u64::MAX / BYTES_PER_MIB {
                return Err(ConfigError::OversizedSizeLimit);
            }
            s as u64
        },
        None => DEFAULT_SIZE_LIMIT_MIB,
    };
    let size_budget_bytes = limit_mib * BYTES_PER_MIB;
    Ok(
        Config {
            smtp: SmtpConfig { server, username, password, from_email, to_email, subject },
            manga_dir,
            size_budget_bytes,
            delete_after_processing: match delete_after_processing {
                Some(b) => b,
                None => false,
            },
        },
    )
}

} // verus!

//! The backends that deliver a message, and the choice between them.

use vstd::prelude::*;
use crate::args::{decimal, decimal_text, BackendConfig};
use crate::parser::grammar::addr_spec;
use crate::parser::{nobody_at_localhost, parse_email_address, EmailAddress};
use crate::text::optional_text;

pub mod api;
pub mod file;
pub mod smtp;

pub use api::ApiBackend;
pub use smtp::SmtpBackend;

verus! {

/// Why a backend could not be set up, or could not deliver a message.
#[derive(Debug)]
pub enum BackendError {
    /// The SMTP relay has no host.
    HostNotProvided,
    /// The message has no envelope sender.
    FromNotProvided,
    /// Of user name and password only one is set.
    OnlyUsernameOrPasswordProvided,
    /// The API has no URL.
    ApiUrlNotProvided,
    /// Of URL, sender and token of the API some are set and some are not.
    ApiConfigIncomplete,
    /// The default sender of the API, given here, is no email address.
    ApiInvalidEmailAddress(String),
    /// No backend is configured.
    NoBackendConfigured,
    /// The API answered 400 Bad Request.
    ApiBadRequest(String),
    /// The API answered 401 Unauthorized.
    ApiUnauthorized(String),
    /// The API answered 402 Payment Required.
    ApiQuotaExceeded(String),
    /// The API answered 403 Forbidden.
    ApiForbidden(String),
    /// The API answered 413 Payload Too Large.
    ApiMessageTooLarge(String),
    /// The API answered with a status from 500 to 599.
    ApiServerError(u16, String),
    /// The API answered with a status that is not expected.
    ApiUnexpectedStatus(u16, String),
    /// The network failed; the text says how.
    NetworkError(String),
    /// Reading or writing failed; the text says how.
    IoError(String),
}

impl BackendError {
    /// The error in words.
    pub open spec fn text(self) -> Seq<char> {
        match self {
            BackendError::HostNotProvided => "Host not provided"@,
            BackendError::FromNotProvided => "From address not provided"@,
            BackendError::OnlyUsernameOrPasswordProvided => "Username and password must be provided together"@,
            BackendError::ApiUrlNotProvided => "API URL not provided"@,
            BackendError::ApiConfigIncomplete => "API configuration incomplete: all three variables (SENDMAIL_API_URL, SENDMAIL_API_SENDER, SENDMAIL_API_TOKEN) must be set"@,
            BackendError::ApiInvalidEmailAddress(address) => "Invalid default sender address: "@
                + address@,
            BackendError::NoBackendConfigured => "No backend configured. Please set one of: SENDMAIL_FILE_PATH, SENDMAIL_RELAY_HOST, or SENDMAIL_API_URL"@,
            BackendError::ApiBadRequest(detail) => "API request failed (400 Bad Request): "@
                + detail@,
            BackendError::ApiUnauthorized(detail) => "API request failed (401 Unauthorized): "@
                + detail@,
            BackendError::ApiQuotaExceeded(detail) => "API request failed (402 Payment Required): "@
                + detail@,
            BackendError::ApiForbidden(detail) => "API request failed (403 Forbidden): "@
                + detail@,
            BackendError::ApiMessageTooLarge(detail) => "API request failed (413 Payload Too Large): "@
                + detail@,
            BackendError::ApiServerError(status, detail) => "API request failed ("@
                + decimal_text(status as int) + " Server Error): "@ + detail@,
            BackendError::ApiUnexpectedStatus(status, detail) => "API request failed ("@
                + decimal_text(status as int) + "): "@ + detail@,
            BackendError::NetworkError(detail) => detail@,
            BackendError::IoError(detail) => "IO error: "@ + detail@,
        }
    }

    /// Writes the error in words.
    pub fn message(&self) -> (m: String)
        ensures
            m@ == self.text(),
    {
        match self {
            BackendError::HostNotProvided => String::from_str("Host not provided"),
            BackendError::FromNotProvided => String::from_str("From address not provided"),
            BackendError::OnlyUsernameOrPasswordProvided => String::from_str(
                "Username and password must be provided together",
            ),
            BackendError::ApiUrlNotProvided => String::from_str("API URL not provided"),
            BackendError::ApiConfigIncomplete => String::from_str(
                "API configuration incomplete: all three variables (SENDMAIL_API_URL, SENDMAIL_API_SENDER, SENDMAIL_API_TOKEN) must be set",
            ),
            BackendError::ApiInvalidEmailAddress(address) => String::from_str(
                "Invalid default sender address: ",
            ).concat(address.as_str()),
            BackendError::NoBackendConfigured => String::from_str(
                "No backend configured. Please set one of: SENDMAIL_FILE_PATH, SENDMAIL_RELAY_HOST, or SENDMAIL_API_URL",
            ),
            BackendError::ApiBadRequest(detail) => String::from_str(
                "API request failed (400 Bad Request): ",
            ).concat(detail.as_str()),
            BackendError::ApiUnauthorized(detail) => String::from_str(
                "API request failed (401 Unauthorized): ",
            ).concat(detail.as_str()),
            BackendError::ApiQuotaExceeded(detail) => String::from_str(
                "API request failed (402 Payment Required): ",
            ).concat(detail.as_str()),
            BackendError::ApiForbidden(detail) => String::from_str(
                "API request failed (403 Forbidden): ",
            ).concat(detail.as_str()),
            BackendError::ApiMessageTooLarge(detail) => String::from_str(
                "API request failed (413 Payload Too Large): ",
            ).concat(detail.as_str()),
            BackendError::ApiServerError(status, detail) => String::from_str(
                "API request failed (",
            ).concat(decimal(*status as i64).as_str()).concat(" Server Error): ").concat(
                detail.as_str(),
            ),
            BackendError::ApiUnexpectedStatus(status, detail) => String::from_str(
                "API request failed (",
            ).concat(decimal(*status as i64).as_str()).concat("): ").concat(detail.as_str()),
            BackendError::NetworkError(detail) => detail.clone(),
            BackendError::IoError(detail) => String::from_str("IO error: ").concat(
                detail.as_str(),
            ),
        }
    }
}

/// A backend takes a message with its envelope and delivers it, in the
/// way of the POSIX `sendmail` interface.
pub trait EmailBackend: Send + Sync {
    /// Whether the backend is configured with a sender of its own, which
    /// it then uses where a message names none. A backend has none unless
    /// it says so.
    open spec fn has_own_sender(&self) -> bool {
        false
    }

    /// Sends the raw message `raw_email`, headers and body as they were
    /// received, from `envelope_from` to each address of `envelope_to`.
    fn send(
        &self,
        envelope_from: &EmailAddress,
        envelope_to: &[&EmailAddress],
        raw_email: &str,
    ) -> Result<(), BackendError>;

    /// The sender to use where the message names none: `nobody@localhost`,
    /// unless the backend is configured with a sender of its own.
    fn default_sender(&self) -> (r: EmailAddress)
        ensures
            !self.has_own_sender() ==> r@ == "nobody@localhost"@,
    {
        nobody_at_localhost()
    }
}

/// The backend that a configuration selects.
#[derive(Debug)]
pub enum Backend {
    /// Append each message to the file at this path.
    File(String),
    /// Hand each message to an SMTP relay.
    SmtpRelay(SmtpBackend),
    /// Post each message to a REST API.
    Api(ApiBackend),
}

/// `r` is what `config` selects. The backends are looked at in the order
/// file, SMTP relay, API, and the first that is configured decides:
///
/// - the file backend, if a path is set;
/// - the SMTP relay, if a host is set: with user name and password if both
///   are set, without if neither is, and an error if only one is;
/// - the API, if any of URL, sender and token is set: an error unless all
///   three are, and unless the sender is a valid address, which is kept in
///   its normalized form;
/// - and an error if nothing is set at all.
pub open spec fn selects(config: BackendConfig, r: Result<Backend, BackendError>) -> bool {
    if let Some(path) = config.file.file_path {
        r matches Ok(Backend::File(p)) && p@ == path@
    } else if let Some(host) = config.smtp_relay.relay_host {
        if (config.smtp_relay.relay_user is Some) != (config.smtp_relay.relay_pass is Some) {
            r matches Err(BackendError::OnlyUsernameOrPasswordProvided)
        } else {
            r matches Ok(Backend::SmtpRelay(b)) && b.host@ == host@ && b.port
                == config.smtp_relay.relay_port && optional_text(b.username) == optional_text(
                config.smtp_relay.relay_user,
            ) && optional_text(b.password) == optional_text(config.smtp_relay.relay_pass)
        }
    } else if config.api.api_url is None && config.api.api_sender is None && config.api.api_token
        is None {
        r matches Err(BackendError::NoBackendConfigured)
    } else if config.api.api_url is None || config.api.api_sender is None
        || config.api.api_token is None {
        r matches Err(BackendError::ApiConfigIncomplete)
    } else {
        match addr_spec(config.api.api_sender->0@) {
            Some(sender) => r matches Ok(Backend::Api(b)) && b.url@ == config.api.api_url->0@
                && b.sender@ == sender && b.token@ == config.api.api_token->0@,
            None => r matches Err(BackendError::ApiInvalidEmailAddress(s)) && s@
                == config.api.api_sender->0@,
        }
    }
}

/// Copies an optional string.
fn clone_optional(s: &Option<String>) -> (r: Option<String>)
    ensures
        optional_text(r) == optional_text(*s),
{
    match s {
        Some(s) => Some(s.clone()),
        None => None,
    }
}

/// Selects the backend that `config` configures.
///
/// The order of priority is: the file backend, the SMTP relay, the REST
/// API. The first one that is configured is used, and an error in its
/// configuration is an error: no other backend is tried in its place.
pub fn create_from_config(config: &BackendConfig) -> (r: Result<Backend, BackendError>)
    ensures
        selects(*config, r),
{
    if let Some(path) = &config.file.file_path {
        return Ok(Backend::File(path.clone()));
    }
    if let Some(host) = &config.smtp_relay.relay_host {
        let username = clone_optional(&config.smtp_relay.relay_user);
        let password = clone_optional(&config.smtp_relay.relay_pass);
        if username.is_some() != password.is_some() {
            return Err(BackendError::OnlyUsernameOrPasswordProvided);
        }
        return Ok(
            Backend::SmtpRelay(
                SmtpBackend::new(host.clone(), config.smtp_relay.relay_port, username, password),
            ),
        );
    }
    match (&config.api.api_url, &config.api.api_sender, &config.api.api_token) {
        (None, None, None) => Err(BackendError::NoBackendConfigured),
        (Some(url), Some(sender), Some(token)) => {
            match parse_email_address(sender.as_str()) {
                Ok(address) => Ok(
                    Backend::Api(ApiBackend::new(url.clone(), address.to_string(), token.clone())),
                ),
                Err(_) => Err(BackendError::ApiInvalidEmailAddress(sender.clone())),
            }
        },
        _ => Err(BackendError::ApiConfigIncomplete),
    }
}

} // verus!

//! What can go wrong with a command.
use crate::image::store::ImageError;
use crate::number::{decimal, decimal_text};
use crate::registry::client::RegistryError;
use crate::text::{glue, glue3};
use vstd::prelude::*;

verus! {

/// What can go wrong with a command.
#[derive(Debug)]
pub enum AppError {
    Message(String),
    /// Reading or writing failed; `not_found` tells that something was missing.
    Io { not_found: bool, message: String },
    Image(ImageError),
    Registry(RegistryError),
    Json(String),
}

/// What is said about stored content.
pub open spec fn image_error_text(error: ImageError) -> Seq<char> {
    match error {
        ImageError::BlobNotFound(digest) => "Blob not found: "@ + digest@,
        ImageError::ContentVerificationError { expected, actual } => {
            "Content verification failed: expected "@ + expected@ + ", got "@ + actual@
        },
        ImageError::Io(message) => message@,
    }
}

/// What is said about a registry.
pub open spec fn registry_error_text(error: RegistryError) -> Seq<char> {
    match error {
        RegistryError::AuthError(message) => "Authentication failed: "@ + message@,
        RegistryError::ManifestNotFound(what) => "Manifest not found: "@ + what@,
        RegistryError::RateLimited(seconds) => "Rate limited, retry after "@ + decimal(
            seconds as nat,
        ) + " seconds"@,
        RegistryError::InvalidResponse(message) => "Invalid response: "@ + message@,
        RegistryError::Other(message) => message@,
    }
}

/// What is said about a command.
pub open spec fn error_text(error: AppError) -> Seq<char> {
    match error {
        AppError::Message(message) => message@,
        AppError::Io { not_found, message } => message@,
        AppError::Image(problem) => image_error_text(problem),
        AppError::Registry(problem) => registry_error_text(problem),
        AppError::Json(message) => message@,
    }
}

impl ImageError {
    /// What is said about stored content.
    pub fn to_text(&self) -> (text: String)
        ensures
            text@ == image_error_text(*self),
    {
        match self {
            ImageError::BlobNotFound(digest) => glue("Blob not found: ", digest),
            ImageError::ContentVerificationError { expected, actual } => {
                let head = glue("Content verification failed: expected ", expected);
                glue3(&head, ", got ", actual)
            },
            ImageError::Io(message) => message.clone(),
        }
    }
}

impl RegistryError {
    /// What is said about a registry.
    pub fn to_text(&self) -> (text: String)
        ensures
            text@ == registry_error_text(*self),
    {
        match self {
            RegistryError::AuthError(message) => glue("Authentication failed: ", message),
            RegistryError::ManifestNotFound(what) => glue("Manifest not found: ", what),
            RegistryError::RateLimited(seconds) => {
                glue3("Rate limited, retry after ", &decimal_text(*seconds), " seconds")
            },
            RegistryError::InvalidResponse(message) => glue("Invalid response: ", message),
            RegistryError::Other(message) => message.clone(),
        }
    }
}

impl AppError {
    /// What is said about a command.
    pub fn to_text(&self) -> (text: String)
        ensures
            text@ == error_text(*self),
    {
        match self {
            AppError::Message(message) => message.clone(),
            AppError::Io { message, .. } => message.clone(),
            AppError::Image(problem) => problem.to_text(),
            AppError::Registry(problem) => problem.to_text(),
            AppError::Json(message) => message.clone(),
        }
    }
}

/// What is said of a problem names it: the digest of a blob that is missing, both digests of
/// content that does not verify, what was not found, how long to wait, and otherwise the
/// message itself.
pub proof fn messages_name_the_problem(problem: AppError)
    ensures
        match problem {
            AppError::Message(message) => error_text(problem) == message@,
            AppError::Io { message, .. } => error_text(problem) == message@,
            AppError::Json(message) => error_text(problem) == message@,
            AppError::Image(ImageError::BlobNotFound(digest)) => error_text(problem)
                == "Blob not found: "@ + digest@,
            AppError::Image(ImageError::ContentVerificationError { expected, actual }) => {
                error_text(problem) == "Content verification failed: expected "@ + expected@
                    + ", got "@ + actual@
            },
            AppError::Image(ImageError::Io(message)) => error_text(problem) == message@,
            AppError::Registry(RegistryError::AuthError(message)) => error_text(problem)
                == "Authentication failed: "@ + message@,
            AppError::Registry(RegistryError::ManifestNotFound(what)) => error_text(problem)
                == "Manifest not found: "@ + what@,
            AppError::Registry(RegistryError::RateLimited(seconds)) => error_text(problem)
                == "Rate limited, retry after "@ + decimal(seconds as nat) + " seconds"@,
            AppError::Registry(RegistryError::InvalidResponse(message)) => error_text(problem)
                == "Invalid response: "@ + message@,
            AppError::Registry(RegistryError::Other(message)) => error_text(problem) == message@,
        },
{
}

} // verus!

//! The service's failures, one variant per component boundary.

use vstd::prelude::*;
use crate::activity::ActivityError;
use crate::listing::BuildError;
use crate::oembed::EmbedError;
use crate::page::PageError;
use crate::routing::PathError;

verus! {

/// How the single upstream request failed.
#[derive(Debug, Clone, Copy, PartialEq, Eq, Structural)]
pub enum UpstreamError {
    /// The request did not reach the upstream or got no answer.
    Transport,
    /// The upstream answered with a non-success status.
    Status(u16),
    /// The answer does not have the expected shape.
    Schema,
}

/// Any failure of a request to the service.
#[derive(Debug)]
pub enum PhixivError {
    Upstream(UpstreamError),
    Build(BuildError),
    Page(PageError),
    Activity(ActivityError),
    Path(PathError),
    Embed(EmbedError),
}

impl PhixivError {
    /// A short description for the error response.
    pub fn message(&self) -> String {
        let text = match self {
            PhixivError::Upstream(UpstreamError::Transport) => "upstream request failed",
            PhixivError::Upstream(UpstreamError::Status(_)) => "upstream answered with an error status",
            PhixivError::Upstream(UpstreamError::Schema) => "upstream answer has an unexpected shape",
            PhixivError::Build(BuildError::InvalidIdentifier) => "illustration id is not numeric",
            PhixivError::Build(BuildError::MissingImageUrl) => "artwork has no image URL",
            PhixivError::Build(BuildError::InvalidUrl) => "artwork has an invalid image URL",
            PhixivError::Page(PageError::IdOutOfRange) => "illustration id is out of range",
            PhixivError::Activity(ActivityError::InvalidId) => "status id is not a number",
            PhixivError::Activity(ActivityError::InvalidTimestamp) => "artwork has an invalid creation date",
            PhixivError::Path(PathError::InvalidIndex) => "page index is not a number",
            PhixivError::Embed(EmbedError::UrlNotProvided) => "url was not provided",
            PhixivError::Embed(EmbedError::InvalidUrl) => "url is not valid",
            PhixivError::Embed(EmbedError::InvalidHost(_)) => "host was not pixiv.net",
        };
        String::from_str(text)
    }
}

} // verus!

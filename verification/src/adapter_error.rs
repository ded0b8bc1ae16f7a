//! Errors met while turning a chat request into an upstream request, with
//! the HTTP status, code and message each is answered with.
use crate::proto_encode::ExceedSizeLimit;
use vstd::prelude::*;

verus! {

#[derive(Debug, Clone, Copy, PartialEq, Eq, Structural)]
pub enum Error {
    /// Vision feature is disabled
    VisionDisabled,
    /// Only base64 encoded images are supported
    Base64Only,
    /// Failed to decode base64 data
    Base64DecodeFailed,
    /// Failed to send the HTTP request
    RequestFailed,
    /// Failed to read the response body
    ResponseReadFailed,
    /// Image format is not supported (must be PNG, JPEG, WebP, or static GIF)
    UnsupportedImageFormat,
    /// Animated GIFs are not supported
    UnsupportedAnimatedGif,
    /// Message exceeds 4 MiB size limit
    ExceedSizeLimit,
}

/// The HTTP status an error is answered with.
pub open spec fn spec_status(e: Error) -> u16 {
    match e {
        Error::VisionDisabled => 403,
        Error::Base64Only | Error::Base64DecodeFailed | Error::UnsupportedImageFormat
        | Error::UnsupportedAnimatedGif => 400,
        Error::RequestFailed | Error::ResponseReadFailed => 502,
        Error::ExceedSizeLimit => 413,
    }
}

/// The code an error is answered with.
pub open spec fn spec_code(e: Error) -> Seq<char> {
    match e {
        Error::VisionDisabled => "permission_denied"@,
        Error::Base64Only | Error::Base64DecodeFailed | Error::UnsupportedImageFormat
        | Error::UnsupportedAnimatedGif => "invalid_argument"@,
        Error::RequestFailed | Error::ResponseReadFailed => "unavailable"@,
        Error::ExceedSizeLimit => "resource_exhausted"@,
    }
}

/// The message an error is answered with.
pub open spec fn spec_message(e: Error) -> Seq<char> {
    match e {
        Error::VisionDisabled => "Vision feature is disabled"@,
        Error::Base64Only => "Only base64 encoded images are supported"@,
        Error::Base64DecodeFailed => "Invalid base64 encoded image"@,
        Error::RequestFailed => "Cannot access the image URL"@,
        Error::ResponseReadFailed => "Failed to download image from URL"@,
        Error::UnsupportedImageFormat => "Unsupported image format, only PNG, JPEG, WebP and non-animated GIF are supported"@,
        Error::UnsupportedAnimatedGif => "Animated GIF is not supported"@,
        Error::ExceedSizeLimit => "Message exceeds 4 MiB size limit"@,
    }
}

impl Error {
    /// The HTTP status, the code and the message of the error.
    pub fn to_parts(self) -> (r: (u16, &'static str, &'static str))
        ensures
            r.0 == spec_status(self),
            r.1@ == spec_code(self),
            r.2@ == spec_message(self),
    {
        match self {
            Error::VisionDisabled => (403, "permission_denied", "Vision feature is disabled"),
            Error::Base64Only => (
                400,
                "invalid_argument",
                "Only base64 encoded images are supported",
            ),
            Error::Base64DecodeFailed => (400, "invalid_argument", "Invalid base64 encoded image"),
            Error::RequestFailed => (502, "unavailable", "Cannot access the image URL"),
            Error::ResponseReadFailed => (502, "unavailable", "Failed to download image from URL"),
            Error::UnsupportedImageFormat => (
                400,
                "invalid_argument",
                "Unsupported image format, only PNG, JPEG, WebP and non-animated GIF are supported",
            ),
            Error::UnsupportedAnimatedGif => (
                400,
                "invalid_argument",
                "Animated GIF is not supported",
            ),
            Error::ExceedSizeLimit => (
                413,
                "resource_exhausted",
                ExceedSizeLimit::message(),
            ),
        }
    }

    /// The code and the message, as a request log records them.
    pub fn to_log_error(self) -> (r: (&'static str, &'static str))
        ensures
            r.0@ == spec_code(self),
            r.1@ == spec_message(self),
    {
        let (_, error, message) = self.to_parts();
        (error, message)
    }

    /// The error's message.
    pub fn message(self) -> (r: &'static str)
        ensures
            r@ == spec_message(self),
    {
        self.to_parts().2
    }
}

impl From<ExceedSizeLimit> for Error {
    fn from(e: ExceedSizeLimit) -> (r: Error) {
        Error::ExceedSizeLimit
    }
}

impl vstd::std_specs::convert::FromSpecImpl<ExceedSizeLimit> for Error {
    open spec fn obeys_from_spec() -> bool {
        true
    }

    open spec fn from_spec(e: ExceedSizeLimit) -> Error {
        Error::ExceedSizeLimit
    }
}

} // verus!

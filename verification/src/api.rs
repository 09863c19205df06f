//! Plain shapes exchanged with the document service: image formats and
//! the bodies of user and image responses.  The application does the
//! transport and hands these values over.

use vstd::prelude::*;

verus! {

/// The image formats the export endpoint accepts.
#[derive(Debug, Clone, Copy, PartialEq, Eq, Structural)]
pub enum ImageFormat {
    Png,
    Jpg,
    Svg,
    Pdf,
}

impl ImageFormat {
    /// The file extension for this format.
    pub fn extension(&self) -> (r: &str)
        ensures
            r@ == (match *self {
                ImageFormat::Png => "png"@,
                ImageFormat::Jpg => "jpg"@,
                ImageFormat::Svg => "svg"@,
                ImageFormat::Pdf => "pdf"@,
            }),
    {
        match self {
            ImageFormat::Png => "png",
            ImageFormat::Jpg => "jpg",
            ImageFormat::Svg => "svg",
            ImageFormat::Pdf => "pdf",
        }
    }

    /// The MIME type for this format.
    pub fn mime_type(&self) -> (r: &str)
        ensures
            r@ == (match *self {
                ImageFormat::Png => "image/png"@,
                ImageFormat::Jpg => "image/jpeg"@,
                ImageFormat::Svg => "image/svg+xml"@,
                ImageFormat::Pdf => "application/pdf"@,
            }),
    {
        match self {
            ImageFormat::Png => "image/png",
            ImageFormat::Jpg => "image/jpeg",
            ImageFormat::Svg => "image/svg+xml",
            ImageFormat::Pdf => "application/pdf",
        }
    }
}

/// Image payloads handed to consumers: inline data or a URL.
#[derive(Debug, Clone, PartialEq)]
pub enum ImageData {
    Base64(String),
    Url(String),
}

/// The body of an image-export response: an optional error and the node
/// id to URL bindings, in the order received.
#[derive(Debug, Clone)]
pub struct FigmaImageResponse {
    pub err: Option<String>,
    pub images: Vec<(String, String)>,
}

/// The body of an image listing: node id to optional URL bindings.
#[derive(Debug, Clone)]
pub struct ImageResponse {
    pub err: Option<String>,
    pub images: Vec<(String, Option<String>)>,
}

/// The body of a user-info response.
#[derive(Debug, Clone)]
pub struct UserInfo {
    pub id: String,
    pub email: String,
    pub handle: String,
    pub img_url: Option<String>,
}

} // verus!

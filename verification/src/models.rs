//! Plain data carried between the card pipeline's collaborators: the API
//! credentials and the photo-search response shape.

use vstd::prelude::*;

verus! {

/// API credentials, read from configuration at startup.
pub struct Config {
    pub access_key: String,
    pub secret_key: String,
}

/// A photo-search response: the list of matching photos.
#[derive(Debug)]
pub struct UnsplashResponse {
    pub results: Vec<UnsplashResult>,
}

/// One photo of a search response.
#[derive(Debug)]
pub struct UnsplashResult {
    pub width: u16,
    pub height: u16,
    pub urls: UnsplashUrls,
}

/// The download locations of one photo.
#[derive(Debug)]
pub struct UnsplashUrls {
    pub full: String,
    pub raw: String,
}

} // verus!

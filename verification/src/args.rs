//! How the server is asked to run.

use vstd::prelude::*;

verus! {

/// What the server is started with.
#[derive(Debug, Clone)]
pub struct Args {
    pub port: u16,
    pub ssl_key_path: Option<String>,
    pub ssl_cert_path: Option<String>,
    pub headless_browser: bool,
    /// Where this server is reached. Subtitles and playlists are offered under it.
    pub host: String,
    pub cache_path: String,
    pub master_cache_size: u64,
    pub memory_segments_cache_size: usize,
    pub file_segments_cache_size_mb: usize,
    pub cache_next_segments: usize,
}

/// Whether the server is reached with encryption.
#[derive(Debug, Clone, Copy, PartialEq, Eq, Structural)]
pub struct UsesHttps(pub bool);

/// Where this server is reached.
#[derive(Debug, Clone)]
pub struct Host(pub String);

/// How many bytes a megabyte has.
pub const MEGABYTE: usize = 1_048_576;

impl Args {
    /// The certificate and the key that the server is reached with, where both are given.
    pub fn tls_paths(&self) -> (r: Option<(String, String)>)
        ensures
            match (self.ssl_cert_path, self.ssl_key_path) {
                (Some(cert), Some(key)) => r matches Some((c, k)) && c@ == cert@ && k@ == key@,
                _ => r is None,
            },
    {
        match (&self.ssl_cert_path, &self.ssl_key_path) {
            (Some(cert), Some(key)) => Some((cert.clone(), key.clone())),
            _ => None,
        }
    }

    /// Whether the server is reached with encryption: where a certificate and a key are
    /// given.
    pub fn uses_https(&self) -> (r: UsesHttps)
        ensures
            r.0 == (self.ssl_cert_path is Some && self.ssl_key_path is Some),
    {
        UsesHttps(self.ssl_cert_path.is_some() && self.ssl_key_path.is_some())
    }

    /// How many bytes of segments are kept in files.
    pub fn file_segments_cache_size(&self) -> (r: usize)
        requires
            self.file_segments_cache_size_mb * MEGABYTE <= usize::MAX,
        ensures
            r == self.file_segments_cache_size_mb * MEGABYTE,
    {
        self.file_segments_cache_size_mb * MEGABYTE
    }
}

} // verus!

//! The catalogue of applications that can be downloaded: plain records.
use vstd::prelude::*;

verus! {

/// The catalogue: one record per application.
#[derive(Default, Debug, Clone, PartialEq)]
pub struct AppDatabase {
    pub app_list: Vec<RemoteAppInfo>,
}

/// One application of the catalogue: where it lies, its content hash and
/// size, and the addresses it can be fetched from.
#[derive(Default, Debug, Clone, PartialEq)]
pub struct RemoteAppInfo {
    pub name: String,
    pub path: String,
    pub sha: String,
    pub size: i64,
    pub url: String,
    pub html_url: String,
    pub git_url: String,
    pub download_url: String,
    pub type_field: String,
    pub links: Links,
}

/// The addresses attached to a catalogue record.
#[derive(Default, Debug, Clone, PartialEq)]
pub struct Links {
    pub self_field: String,
    pub git: String,
    pub html: String,
}

} // verus!

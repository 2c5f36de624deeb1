//! The dict manifest: for each gzipped bundle on disk, its URL, size,
//! SHA-256 and version (modification time). Reading the files, hashing
//! them and formatting their times happen in the server, which hands
//! the facts of each file found to `compute`.

use vstd::prelude::*;

use crate::llm::cache::{hex_encode, hex_text};
use crate::media::stream::text;
use crate::paths::{join, joined};
use crate::text::str_is;

verus! {

/// The bundles on offer.
#[derive(Debug, Clone)]
pub struct Manifest {
    pub jmdict: Option<Bundle>,
    pub wk: Option<Bundle>,
    pub frequency: Option<Bundle>,
}

/// One bundle's entry in the manifest.
#[derive(Debug, Clone)]
pub struct Bundle {
    pub url: String,
    pub size: u64,
    pub sha256: String,
    pub version: String,
}

/// What the server found out about a bundle file: its size, the SHA-256
/// of its contents and its modification time as `%Y-%m-%dT%H:%M:%SZ`.
#[derive(Debug, Clone)]
pub struct FileFacts {
    pub size: u64,
    pub digest: Vec<u8>,
    pub version: String,
}

/// The file of each bundle name served under `/api/dict/<name>`.
pub open spec fn file_for(name: Seq<char>) -> Option<Seq<char>> {
    if name == seq!['j', 'm', 'd', 'i', 'c', 't'] {
        Some("jmdict.json.gz"@)
    } else if name == seq!['w', 'k'] {
        Some("wk.json.gz"@)
    } else if name == seq!['f', 'r', 'e', 'q', 'u', 'e', 'n', 'c', 'y'] {
        Some("frequency.json.gz"@)
    } else {
        None
    }
}

pub fn bundle_file(name: &str) -> (r: Option<&'static str>)
    ensures
        match r {
            Some(f) => file_for(name@) == Some(f@),
            None => file_for(name@) is None,
        },
{
    if str_is(name, &['j', 'm', 'd', 'i', 'c', 't']) {
        Some("jmdict.json.gz")
    } else if str_is(name, &['w', 'k']) {
        Some("wk.json.gz")
    } else if str_is(name, &['f', 'r', 'e', 'q', 'u', 'e', 'n', 'c', 'y']) {
        Some("frequency.json.gz")
    } else {
        None
    }
}

/// The path of bundle file `name` in the data directory; the server
/// serves it only if it exists.
pub fn bundle_path(data_dir: &str, name: &str) -> (r: String)
    ensures
        r@ == joined(data_dir@, name@),
{
    join(data_dir, name)
}

/// The manifest entry of a bundle served at `url`: absent when its file
/// is, else its size, lowercase hex SHA-256 and version.
pub open spec fn entry_ok(b: Option<Bundle>, url: Seq<char>, facts: Option<FileFacts>) -> bool {
    match facts {
        None => b is None,
        Some(f) => b matches Some(e) && e.url@ == url && e.size == f.size && e.sha256@ == hex_text(
            f.digest@,
        ) && e.version@ == f.version@,
    }
}

pub fn bundle_for(url: &str, facts: Option<FileFacts>) -> (r: Option<Bundle>)
    ensures
        entry_ok(r, url@, facts),
{
    match facts {
        None => None,
        Some(f) => {
            let sha256 = hex_encode(f.digest.as_slice());
            Some(Bundle { url: text(url), size: f.size, sha256, version: f.version })
        },
    }
}

/// The manifest of the three bundles, from the facts of the files found
/// (`jmdict.json.gz`, `wk.json.gz`, `frequency.json.gz`).
pub fn compute(jmdict: Option<FileFacts>, wk: Option<FileFacts>, frequency: Option<FileFacts>) -> (m:
    Manifest)
    ensures
        entry_ok(m.jmdict, "/api/dict/jmdict"@, jmdict),
        entry_ok(m.wk, "/api/dict/wk"@, wk),
        entry_ok(m.frequency, "/api/dict/frequency"@, frequency),
{
    Manifest {
        jmdict: bundle_for("/api/dict/jmdict", jmdict),
        wk: bundle_for("/api/dict/wk", wk),
        frequency: bundle_for("/api/dict/frequency", frequency),
    }
}

} // verus!

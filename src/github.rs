//! What the library computes around fetching the documentation tree.
use vstd::prelude::*;

use crate::state::RebuildError;

verus! {

/// The repository that the documentation is fetched from.
#[derive(Clone, Debug)]
pub struct RepoRef {
    pub user: String,
    pub repo: String,
}

/// The directory that a tarball of commit `sha` unpacks into.
pub open spec fn folder_of(user: Seq<char>, repo: Seq<char>, sha: Seq<char>) -> Seq<char> {
    user + seq!['-'] + repo + seq!['-'] + sha
}

impl RepoRef {
    pub fn new(user: String, repo: String) -> (r: RepoRef)
        ensures
            r.user == user,
            r.repo == repo,
    {
        RepoRef { user, repo }
    }

    /// The path of the unpacked tree of commit `sha` under `dir`.
    pub fn checkout_path(&self, dir: &str, sha: &str) -> (r: String)
        ensures
            r@ == dir@ + seq!['/'] + folder_of(self.user@, self.repo@, sha@),
    {
        let mut s = dir.to_owned();
        s.append("/");
        s.append(self.user.as_str());
        s.append("-");
        s.append(self.repo.as_str());
        s.append("-");
        s.append(sha);
        proof {
            reveal_strlit("/");
            reveal_strlit("-");
        }
        s
    }
}

/// The commit to fetch: the newest one listed, or a fetch error where the
/// repository lists none.
pub fn latest_commit(shas: Vec<String>) -> (r: Result<String, RebuildError>)
    ensures
        shas@.len() == 0 ==> r == Err::<String, RebuildError>(RebuildError::Fetch),
        shas@.len() > 0 ==> r == Ok::<String, RebuildError>(shas@[0]),
{
    let mut shas = shas;
    if shas.len() == 0 {
        return Err(RebuildError::Fetch);
    }
    Ok(shas.swap_remove(0))
}

/// What gzip decoding of `data` gives, as flate2's `GzDecoder` reads it:
/// the first member's bytes, or `None` where the data is not valid gzip.
pub uninterp spec fn gunzip_of(data: Seq<u8>) -> Option<Seq<u8>>;

/// Relies on `flate2::read::GzDecoder` read to its end: the outcome depends
/// on the bytes alone.
#[verifier::external_body]
fn gunzip(data: &Vec<u8>) -> (r: Option<Vec<u8>>)
    ensures
        match r {
            Some(b) => gunzip_of(data@) == Some(b@),
            None => gunzip_of(data@) is None,
        },
{
    let mut decoder = flate2::read::GzDecoder::new(data.as_slice());
    let mut out = Vec::new();
    match std::io::Read::read_to_end(&mut decoder, &mut out) {
        Ok(_) => Some(out),
        Err(_) => None,
    }
}

/// The tar archive inside a downloaded gzip tarball, or a fetch error
/// where the download is not valid gzip.
pub fn decompress_tarball(data: &Vec<u8>) -> (r: Result<Vec<u8>, RebuildError>)
    ensures
        match gunzip_of(data@) {
            Some(b) => r matches Ok(v) && v@ == b,
            None => r == Err::<Vec<u8>, RebuildError>(RebuildError::Fetch),
        },
{
    match gunzip(data) {
        Some(b) => Ok(b),
        None => Err(RebuildError::Fetch),
    }
}

} // verus!

//! Source identifiers: where the bytes of a source image come from, and the
//! fingerprint under which they are cached.

use std::collections::hash_map::DefaultHasher;
use std::hash::Hasher;
use vstd::prelude::*;
use vstd::std_specs::hash::DefaultHasherAdditionalSpecFns;
use vstd::string::*;

verus! {

/// The key of a cache entry: the fingerprint of a source identifier, 64 bits
/// wide. Two identifiers with one fingerprint share an entry; at this width that
/// is an accepted risk and nothing guards against it.
pub type CacheKey = u64;

/// Where a source identifier points.
#[derive(Debug, PartialEq, Eq)]
pub enum Origin {
    /// A file on local storage, read-only.
    Local { path: String },
    /// A resource that is retrieved over the network.
    Remote { url: String },
}

/// Why no bytes were retrieved for a source identifier.
#[derive(Clone, Copy, Debug, PartialEq, Eq, Structural)]
pub enum FetchError {
    /// The identifier names a scheme that is neither local nor known to be
    /// retrievable over the network.
    UnsupportedScheme,
    /// The origin could not be read: a timeout, a status that is no success, a
    /// transport error, a file that cannot be opened.
    Transport,
}

/// Whether `source_id` names a local file: it begins with `file://`.
pub open spec fn is_local(source_id: Seq<char>) -> bool {
    "file://"@.is_prefix_of(source_id)
}

/// Whether `source_id` names a resource on the network: it begins with `http://`
/// or `https://`.
pub open spec fn is_remote(source_id: Seq<char>) -> bool {
    "http://"@.is_prefix_of(source_id) || "https://"@.is_prefix_of(source_id)
}

/// The path of a local file: what follows `file://`.
pub open spec fn local_path(source_id: Seq<char>) -> Seq<char> {
    source_id.skip(7)
}

/// An origin as a value of the model.
pub enum OriginView {
    Local { path: Seq<char> },
    Remote { url: Seq<char> },
}

impl View for Origin {
    type V = OriginView;

    open spec fn view(&self) -> OriginView {
        match self {
            Origin::Local { path } => OriginView::Local { path: path@ },
            Origin::Remote { url } => OriginView::Remote { url: url@ },
        }
    }
}

/// Where `source_id` points, if its scheme is supported.
pub open spec fn spec_resolve(source_id: Seq<char>) -> Option<OriginView> {
    if is_local(source_id) {
        Some(OriginView::Local { path: local_path(source_id) })
    } else if is_remote(source_id) {
        Some(OriginView::Remote { url: source_id })
    } else {
        None
    }
}

/// Whether `text` begins with `prefix`.
fn has_prefix(text: &str, prefix: &str) -> (found: bool)
    ensures
        found == prefix@.is_prefix_of(text@),
{
    let n: usize = prefix.unicode_len();
    if text.unicode_len() < n {
        return false;
    }
    let mut i: usize = 0;
    while i < n
        invariant
            i <= n == prefix@.len() <= text@.len(),
            forall|k: int| 0 <= k < i ==> text@[k] == prefix@[k],
        decreases n - i,
    {
        if text.get_char(i) != prefix.get_char(i) {
            assert(text@.subrange(0, n as int)[i as int] != prefix@[i as int]);
            return false;
        }
        i += 1;
    }
    assert(text@.subrange(0, n as int) =~= prefix@);
    true
}

/// Finds where `source_id` points, by its scheme.
pub fn resolve(source_id: &str) -> (resolved: Result<Origin, FetchError>)
    ensures
        match resolved {
            Ok(origin) => spec_resolve(source_id@) == Some(origin@),
            Err(e) => e == FetchError::UnsupportedScheme && spec_resolve(source_id@) is None,
        },
{
    proof {
        reveal_strlit("file://");
        reveal_strlit("http://");
        reveal_strlit("https://");
    }
    if has_prefix(source_id, "file://") {
        let path = source_id.substring_char(7, source_id.unicode_len());
        Ok(Origin::Local { path: path.to_owned() })
    } else if has_prefix(source_id, "http://") || has_prefix(source_id, "https://") {
        Ok(Origin::Remote { url: source_id.to_owned() })
    } else {
        Err(FetchError::UnsupportedScheme)
    }
}

/// The capability to retrieve the bytes of an origin. An implementation reads a
/// local file for `Origin::Local` and asks the network for `Origin::Remote`; it
/// does not retry.
pub trait Fetch {
    type Error;

    fn fetch(&self, origin: &Origin) -> Result<Vec<u8>, Self::Error>;
}

/// What a retrieval comes to, given what the fetcher returned: the bytes, or a
/// transport failure whatever the fetcher's own error was.
pub fn fetched<E>(outcome: Result<Vec<u8>, E>) -> (retrieved: Result<Vec<u8>, FetchError>)
    ensures
        match outcome {
            Ok(bytes) => retrieved == Ok::<Vec<u8>, FetchError>(bytes),
            Err(_) => retrieved == Err::<Vec<u8>, FetchError>(FetchError::Transport),
        },
{
    match outcome {
        Ok(bytes) => Ok(bytes),
        Err(_) => Err(FetchError::Transport),
    }
}

/// Retrieves the bytes that `source` names: from a local file or from the
/// network, as its scheme says. A scheme that is not supported is refused before
/// the fetcher is asked.
pub fn retrieve_data<F: Fetch>(fetcher: &F, source: &str) -> (retrieved: Result<
    Vec<u8>,
    FetchError,
>)
    ensures
        retrieved == Err::<Vec<u8>, FetchError>(FetchError::UnsupportedScheme) <==> spec_resolve(
            source@,
        ) is None,
{
    match resolve(source) {
        Err(e) => Err(e),
        Ok(origin) => fetched(fetcher.fetch(&origin)),
    }
}

/// The fingerprint of a source identifier: the standard hasher's digest of the
/// identifier's bytes and a closing `0xff`.
pub open spec fn spec_fingerprint(source_id: Seq<char>) -> u64 {
    DefaultHasher::spec_finish(seq![vstd::utf8::encode_utf8(source_id), seq![0xffu8]])
}

/// Computes the key under which the bytes of `source_id` are cached. Equal
/// identifiers have equal fingerprints; distinct identifiers may collide, and
/// nothing detects it.
pub fn fingerprint(source_id: &str) -> (key: CacheKey)
    ensures
        key == spec_fingerprint(source_id@),
{
    let mut hasher = DefaultHasher::new();
    hasher.write(source_id.as_bytes());
    let end: [u8; 1] = [0xff];
    assert(end@ =~= seq![0xffu8]);
    hasher.write(end.as_slice());
    proof {
        assert(hasher@ =~= seq![vstd::utf8::encode_utf8(source_id@), seq![0xffu8]]);
    }
    hasher.finish()
}

} // verus!

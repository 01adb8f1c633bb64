use std::cell::Cell;
use std::collections::hash_map::DefaultHasher;
use std::hash::{Hash, Hasher};
use tumbor::source::{fingerprint, resolve, retrieve_data, Fetch, FetchError, Origin};

struct Canned {
    calls: Cell<usize>,
}

impl Fetch for Canned {
    type Error = String;

    fn fetch(&self, origin: &Origin) -> Result<Vec<u8>, String> {
        self.calls.set(self.calls.get() + 1);
        match origin {
            Origin::Local { path } => Ok(path.as_bytes().to_vec()),
            Origin::Remote { url } => Err(format!("no route to {}", url)),
        }
    }
}

#[test]
fn a_file_identifier_resolves_to_its_path() {
    assert_eq!(
        resolve("file:///tmp/sample.jpg"),
        Ok(Origin::Local { path: "/tmp/sample.jpg".to_string() })
    );
}

#[test]
fn a_web_identifier_resolves_to_itself() {
    assert_eq!(
        resolve("https://example.com/a.png?x=1"),
        Ok(Origin::Remote { url: "https://example.com/a.png?x=1".to_string() })
    );
    assert_eq!(
        resolve("http://example.com/"),
        Ok(Origin::Remote { url: "http://example.com/".to_string() })
    );
}

#[test]
fn an_unsupported_scheme_is_refused_without_a_fetch() {
    let fetcher = Canned { calls: Cell::new(0) };
    assert_eq!(resolve("ftp://host/path"), Err(FetchError::UnsupportedScheme));
    assert_eq!(retrieve_data(&fetcher, "ftp://host/path"), Err(FetchError::UnsupportedScheme));
    assert_eq!(retrieve_data(&fetcher, ""), Err(FetchError::UnsupportedScheme));
    assert_eq!(retrieve_data(&fetcher, "file:/tmp/x"), Err(FetchError::UnsupportedScheme));
    assert_eq!(fetcher.calls.get(), 0);
}

#[test]
fn a_failed_fetch_is_a_transport_error() {
    let fetcher = Canned { calls: Cell::new(0) };
    assert_eq!(retrieve_data(&fetcher, "http://example.com/a"), Err(FetchError::Transport));
    assert_eq!(retrieve_data(&fetcher, "file://é/x"), Ok("é/x".as_bytes().to_vec()));
    assert_eq!(fetcher.calls.get(), 2);
}

#[test]
fn the_fingerprint_is_the_standard_hash_of_the_identifier() {
    let id = "https://example.com/a.png";
    let mut hasher = DefaultHasher::new();
    id.hash(&mut hasher);
    assert_eq!(fingerprint(id), hasher.finish());
    assert_eq!(fingerprint(id), fingerprint("https://example.com/a.png"));
    assert_ne!(fingerprint(id), fingerprint("https://example.com/b.png"));
}

use yap_capture::history::migration_needs_catalog;
use yap_capture::session::{sha256_hex, Sha256Stream};

#[test]
fn a_stream_hashes_like_the_whole_message() {
    let mut stream = Sha256Stream::start();
    stream.absorb(b"a");
    stream.absorb(b"");
    stream.absorb(b"bc");
    let streamed = stream.finish_hex();
    assert_eq!(streamed, "ba7816bf8f01cfea414140de5dae2223b00361a396177a9cb410ff61f20015ad");
    assert_eq!(streamed, sha256_hex(b"abc"));
}

#[test]
fn an_empty_stream_hashes_the_empty_message() {
    assert_eq!(
        Sha256Stream::start().finish_hex(),
        "e3b0c44298fc1c149afbf4c8996fb92427ae41e4649b934ca495991b7852b855"
    );
}

#[test]
fn migrations_load_the_catalog_only_for_accepted_nonempty_lists() {
    assert!(!migration_needs_catalog(0));
    assert!(migration_needs_catalog(1));
    assert!(migration_needs_catalog(500));
    assert!(!migration_needs_catalog(501));
}

use fedcore::bytes::{bytes_eq, copy_range, ends_with, has_at, scan_domain, scan_user};
use fedcore::uri::{check_uri, host_of, local_host, UriError};

#[test]
fn host_is_found() {
    assert_eq!(host_of(b"https://example.com/users/alice"), Some(b"example.com".to_vec()));
    assert_eq!(host_of(b"https://example.com"), Some(b"example.com".to_vec()));
    assert_eq!(host_of(b"http://example.com:8080/x"), Some(b"example.com".to_vec()));
    assert_eq!(host_of(b"https://example.com?q=1"), Some(b"example.com".to_vec()));
    assert_eq!(host_of(b"https://example.com#frag"), Some(b"example.com".to_vec()));
    assert_eq!(host_of(b"https:///path"), None);
    assert_eq!(host_of(b"https://user@example.com/"), None);
    assert_eq!(host_of(b"https://[::1]/"), None);
    assert_eq!(host_of(b"ftp://example.com/"), None);
    assert_eq!(host_of(b""), None);
    assert_eq!(host_of(b"https://"), None);
}

#[test]
fn policy_on_addresses() {
    assert_eq!(check_uri(b"https://example.com/users/alice", false), Ok(b"example.com".to_vec()));
    assert_eq!(check_uri(b"http://example.com/users/alice", false), Err(UriError::UnsupportedScheme));
    assert_eq!(check_uri(b"http://example.com/users/alice", true), Ok(b"example.com".to_vec()));
    assert_eq!(check_uri(b"gopher://example.com/", true), Err(UriError::UnsupportedScheme));
    assert_eq!(check_uri(b"https://exa mple.com/", false), Err(UriError::InvalidHost));
    assert_eq!(check_uri(b"https:///x", false), Err(UriError::InvalidHost));
    assert_eq!(check_uri(b"https://localhost/x", false), Err(UriError::LocalTarget));
    assert_eq!(check_uri(b"https://api.localhost/x", false), Err(UriError::LocalTarget));
    assert_eq!(check_uri(b"https://printer.local/x", false), Err(UriError::LocalTarget));
    assert_eq!(check_uri(b"https://127.0.0.1:3000/x", false), Err(UriError::LocalTarget));
    assert_eq!(check_uri(b"https://0.0.0.0/x", false), Err(UriError::LocalTarget));
    assert_eq!(check_uri(b"https://127.example.com/x", false), Ok(b"127.example.com".to_vec()));
    assert_eq!(check_uri(b"https://localhost.example.com/x", false), Ok(b"localhost.example.com".to_vec()));
}

#[test]
fn local_hosts() {
    assert!(local_host(b"localhost"));
    assert!(local_host(b"127.1"));
    assert!(!local_host(b"128.0.0.1"));
    assert!(!local_host(b"example.com"));
    assert!(!local_host(b""));
}

#[test]
fn byte_helpers() {
    assert!(bytes_eq(b"abc", b"abc"));
    assert!(!bytes_eq(b"abc", b"abd"));
    assert!(!bytes_eq(b"abc", b"ab"));
    assert!(bytes_eq(b"", b""));
    assert_eq!(copy_range(b"hello", 1, 4), b"ell".to_vec());
    assert_eq!(copy_range(b"hello", 2, 2), Vec::<u8>::new());
    assert!(has_at(b"hello", 2, b"llo"));
    assert!(!has_at(b"hello", 3, b"llo"));
    assert!(!has_at(b"hello", 9, b""));
    assert!(has_at(b"hello", 5, b""));
    assert!(ends_with(b"hello", b"lo"));
    assert!(!ends_with(b"lo", b"hello"));
    assert_eq!(scan_domain(b"a-b.c_d", 0), 5);
    assert_eq!(scan_user(b"a-b.c_d e", 0), 7);
    assert_eq!(scan_user(b"abc", 3), 3);
}

#[test]
fn capitals_do_not_hide_a_local_host() {
    assert_eq!(check_uri(b"https://LOCALHOST/x", false), Err(UriError::LocalTarget));
    assert_eq!(check_uri(b"https://Printer.Local/x", false), Err(UriError::LocalTarget));
    assert_eq!(check_uri(b"https://Example.COM/x", false), Ok(b"Example.COM".to_vec()));
    assert_eq!(fedcore::bytes::lowercase(b"AbC-z.Z09@["), b"abc-z.z09@[".to_vec());
}

use local_transport::error::{native_error, readlink_error, Error, NativeKind};
use local_transport::escape::escape;
use local_transport::readv::range_result;
use local_transport::segment::{
    join_segment_parameters, last_value_per_key, set_parameter, split_segment_parameters,
};
use local_transport::transport::{join_path, FileSystemTransport};

fn pairs(items: &[(&str, &str)]) -> Vec<(String, String)> {
    items.iter().map(|(k, v)| (k.to_string(), v.to_string())).collect()
}

fn lookup(ps: &[(String, String)], key: &str) -> Option<String> {
    ps.iter().rev().find(|(k, _)| k == key).map(|(_, v)| v.clone())
}

#[test]
fn split_without_parameters() {
    let (raw, ps) = split_segment_parameters("file:///tmp/repo").unwrap();
    assert_eq!(raw, "file:///tmp/repo");
    assert!(ps.is_empty());
}

#[test]
fn split_with_parameters() {
    let (raw, ps) = split_segment_parameters("file:///tmp/repo;branch=trunk;format=2a").unwrap();
    assert_eq!(raw, "file:///tmp/repo");
    assert_eq!(ps, pairs(&[("branch", "trunk"), ("format", "2a")]));
}

#[test]
fn split_ignores_separators_before_last_slash() {
    let (raw, ps) = split_segment_parameters("file:///tmp/a;x=1/b").unwrap();
    assert_eq!(raw, "file:///tmp/a;x=1/b");
    assert!(ps.is_empty());
}

#[test]
fn split_value_may_hold_equals() {
    let (_, ps) = split_segment_parameters("file:///r;k=a=b").unwrap();
    assert_eq!(ps, pairs(&[("k", "a=b")]));
}

#[test]
fn split_rejects_parameter_without_equals() {
    assert_eq!(split_segment_parameters("file:///tmp/repo;a=b;broken"), Err(Error::MalformedLocator));
}

#[test]
fn join_writes_parameters_in_order() {
    let s = join_segment_parameters("file:///tmp/repo", &pairs(&[("a", "1"), ("b", "2")])).unwrap();
    assert_eq!(s, "file:///tmp/repo;a=1;b=2");
    assert_eq!(join_segment_parameters("file:///x", &[]).unwrap(), "file:///x");
}

#[test]
fn join_rejects_bad_keys_and_values() {
    assert_eq!(join_segment_parameters("file:///x", &pairs(&[("a=b", "1")])), Err(Error::MalformedLocator));
    assert_eq!(join_segment_parameters("file:///x", &pairs(&[("a", "1;2")])), Err(Error::MalformedLocator));
    assert_eq!(join_segment_parameters("file:///x", &pairs(&[("a", "1/2")])), Err(Error::MalformedLocator));
    assert_eq!(join_segment_parameters("file:///x;a=1", &[]), Err(Error::MalformedLocator));
}

#[test]
fn set_parameter_replaces_and_removes() {
    let mut ps = pairs(&[("a", "1"), ("b", "2")]);
    set_parameter(&mut ps, "a", Some("3"));
    assert_eq!(ps, pairs(&[("b", "2"), ("a", "3")]));
    set_parameter(&mut ps, "b", None);
    assert_eq!(ps, pairs(&[("a", "3")]));
    set_parameter(&mut ps, "missing", None);
    assert_eq!(ps, pairs(&[("a", "3")]));
}

#[test]
fn segment_parameter_set_then_get() {
    let mut t = FileSystemTransport::from_path("/tmp/repo").unwrap();
    t.set_segment_parameter("foo", Some("bar")).unwrap();
    let ps = t.get_segment_parameters().unwrap();
    assert_eq!(lookup(&ps, "foo"), Some("bar".to_string()));
    assert_eq!(t.base(), "file:///tmp/repo;foo=bar");
    assert_eq!(t.root(), "/tmp/repo");
    t.set_segment_parameter("foo", None).unwrap();
    let ps = t.get_segment_parameters().unwrap();
    assert_eq!(lookup(&ps, "foo"), None);
    assert_eq!(t.base(), "file:///tmp/repo");
}

#[test]
fn set_segment_parameter_rejects_bad_key() {
    let mut t = FileSystemTransport::from_path("/tmp/repo").unwrap();
    assert_eq!(t.set_segment_parameter("a;b", Some("c")), Err(Error::MalformedLocator));
    assert_eq!(t.base(), "file:///tmp/repo");
}

#[test]
fn escape_keeps_safe_bytes() {
    assert_eq!(escape(b"dir/file-1.txt~"), "dir/file-1.txt~");
}

#[test]
fn escape_encodes_other_bytes() {
    assert_eq!(escape(b"a b"), "a%20b");
    assert_eq!(escape(&[0xff, b'%']), "%FF%25");
    assert_eq!(escape(b""), "");
}

#[test]
fn readlink_fragment_round_trip() {
    let target = "sub/target.txt";
    assert_eq!(escape(target.as_bytes()), target);
}

fn pread(content: &[u8], off: usize, len: usize) -> Vec<u8> {
    let start = off.min(content.len());
    let end = (off + len).min(content.len());
    content[start..end].to_vec()
}

#[test]
fn readv_two_ranges_in_order() {
    let content: Vec<u8> = (0u8..20).collect();
    let ranges = [(0usize, 4usize), (10, 4)];
    let got: Vec<Result<Vec<u8>, Error>> =
        ranges.iter().map(|&(o, l)| range_result(pread(&content, o, l), o as u64, l, content.len() as u64)).collect();
    assert_eq!(got, vec![Ok(vec![0, 1, 2, 3]), Ok(vec![10, 11, 12, 13])]);
}

#[test]
fn readv_past_end_is_unexpected_eof() {
    let content: Vec<u8> = (0u8..20).collect();
    let size = content.len() as u64;
    assert_eq!(range_result(pread(&content, 18, 4), 18, 4, size), Err(Error::UnexpectedEof));
    assert_eq!(range_result(pread(&content, 30, 1), 30, 1, size), Err(Error::UnexpectedEof));
    assert_eq!(range_result(pread(&content, 16, 4), 16, 4, size), Ok(vec![16, 17, 18, 19]));
}

#[test]
fn readv_empty_range_past_end_is_unexpected_eof() {
    let content: Vec<u8> = (0u8..20).collect();
    let size = content.len() as u64;
    assert_eq!(range_result(pread(&content, 25, 0), 25, 0, size), Err(Error::UnexpectedEof));
    assert_eq!(range_result(pread(&content, 20, 0), 20, 0, size), Ok(vec![]));
}

#[test]
fn readv_short_read_is_unexpected_eof() {
    assert_eq!(range_result(vec![1, 2], 0, 4, 20), Err(Error::UnexpectedEof));
}

#[test]
fn join_path_cases() {
    assert_eq!(join_path("/a", "b"), "/a/b");
    assert_eq!(join_path("/a/", "b"), "/a/b");
    assert_eq!(join_path("/a", "/b"), "/b");
    assert_eq!(join_path("", "b"), "b");
}

#[test]
fn local_abspath_cleans() {
    let t = FileSystemTransport::from_path("/tmp/root").unwrap();
    assert_eq!(t.local_abspath("a/../b").unwrap(), "/tmp/root/b");
    assert_eq!(t.local_abspath("./x//y").unwrap(), "/tmp/root/x/y");
    assert_eq!(t.local_abspath("").unwrap(), "/tmp/root");
}

#[test]
fn local_abspath_refuses_escape() {
    let t = FileSystemTransport::from_path("/tmp/root").unwrap();
    assert_eq!(t.local_abspath("../other"), Err(Error::MalformedLocator));
    assert_eq!(t.local_abspath("a/../../x"), Err(Error::MalformedLocator));
    assert_eq!(t.local_abspath("/etc/passwd"), Err(Error::MalformedLocator));
    assert_eq!(t.local_abspath("../rootkit"), Err(Error::MalformedLocator));
    assert!(t.clone_at(Some("..")).is_err());
}

#[test]
fn segment_parameters_keep_last_value_per_key() {
    let t = FileSystemTransport::from_url("file:///tmp/repo;a=1;b=2;a=3").unwrap();
    let ps = t.get_segment_parameters().unwrap();
    assert_eq!(ps, pairs(&[("b", "2"), ("a", "3")]));
    assert_eq!(last_value_per_key(&pairs(&[("x", "1"), ("x", "2")])), pairs(&[("x", "2")]));
}

#[test]
fn native_errors_map_to_kinds() {
    assert_eq!(native_error(NativeKind::NotFound, String::new()), Error::NotFound);
    assert_eq!(native_error(NativeKind::AlreadyExists, String::new()), Error::AlreadyExists);
    assert_eq!(native_error(NativeKind::PermissionDenied, String::new()), Error::PermissionDenied);
    assert_eq!(native_error(NativeKind::Unsupported, String::new()), Error::Unsupported);
    assert_eq!(native_error(NativeKind::UnexpectedEof, String::new()), Error::UnexpectedEof);
    assert_eq!(native_error(NativeKind::Other, "boom".to_string()), Error::IoFailure("boom".to_string()));
}

#[test]
fn readlink_of_non_symlink_is_not_found() {
    assert_eq!(readlink_error(NativeKind::InvalidInput, "x".to_string()), Error::NotFound);
    assert_eq!(readlink_error(NativeKind::PermissionDenied, "x".to_string()), Error::PermissionDenied);
}

#[test]
fn from_path_builds_file_url() {
    let t = FileSystemTransport::from_path("/tmp/repo").unwrap();
    assert_eq!(t.base(), "file:///tmp/repo");
    assert_eq!(t.external_url(), "file:///tmp/repo");
    assert_eq!(t.root(), "/tmp/repo");
}

#[test]
fn from_path_rejects_relative() {
    assert!(matches!(FileSystemTransport::from_path("relative/dir"), Err(Error::MalformedLocator)));
}

#[test]
fn from_url_resolves_root() {
    let t = FileSystemTransport::from_url("FILE:///tmp/a%20b").unwrap();
    assert_eq!(t.base(), "file:///tmp/a%20b");
    assert_eq!(t.root(), "/tmp/a b");
}

#[test]
fn from_url_rejects_other_schemes() {
    assert!(matches!(FileSystemTransport::from_url("http://example.com/x"), Err(Error::MalformedLocator)));
    assert!(matches!(FileSystemTransport::from_url("not a url"), Err(Error::MalformedLocator)));
}

#[test]
fn abspath_joins_onto_base() {
    let t = FileSystemTransport::from_path("/tmp/repo").unwrap();
    assert_eq!(t.abspath("a/b").unwrap(), "file:///tmp/repo/a/b");
}

#[test]
fn relpath_inverts_abspath() {
    let t = FileSystemTransport::from_path("/tmp/repo").unwrap();
    assert_eq!(t.relpath("file:///tmp/repo/a/b").unwrap(), "a/b");
    assert_eq!(t.relpath("file:///tmp/repo").unwrap(), "");
    assert_eq!(t.relpath("file:///tmp/repository"), Err(Error::MalformedLocator));
    assert_eq!(t.relpath("file:///etc"), Err(Error::MalformedLocator));
}

#[test]
fn clone_at_scopes_to_sub_path() {
    let t = FileSystemTransport::from_path("/tmp/repo").unwrap();
    let c = t.clone_at(Some("sub/../dir")).unwrap();
    assert_eq!(c.root(), "/tmp/repo/dir");
    assert_eq!(c.base(), "file:///tmp/repo/dir");
    let same = t.clone_at(None).unwrap();
    assert_eq!(same.base(), t.base());
    assert_eq!(same.root(), t.root());
}

use ducklake::{DucklakeError, DucklakePath, Path};

fn absolute(url: &str) -> DucklakePath {
    DucklakePath::parse(url).unwrap()
}

fn relative(path: &str) -> DucklakePath {
    DucklakePath::Relative(path.to_string())
}

#[test]
fn test_from_str_invalid_url() {
    assert!("http://[bad".parse::<DucklakePath>().is_err());
}

#[test]
fn test_default_is_empty_relative() {
    assert_eq!(DucklakePath::default(), relative(""));
}

#[test]
fn test_resolve_s3() {
    let path = absolute("s3://bucket/prefix/file.parquet").resolve("/").unwrap();
    match path {
        Path::S3 { bucket, path } => {
            assert_eq!(bucket, "bucket");
            assert_eq!(path, "/prefix/file.parquet");
        }
        _ => panic!("expected S3 path"),
    }
}

#[test]
fn test_resolve_local() {
    let path = absolute("file:///tmp/file.parquet").resolve("/").unwrap();
    match path {
        Path::Local { path } => {
            assert_eq!(path, "/tmp/file.parquet");
        }
        _ => panic!("expected Local path"),
    }
}

#[test]
fn test_resolve_unsupported_scheme() {
    let path = absolute("http://example.com/file").resolve("/");
    assert!(matches!(path, Err(DucklakeError::UnsupportedUrlScheme(_))));
}

#[test]
fn new_keeps_relative_text_and_parses_urls() {
    assert_eq!(DucklakePath::new("foo/", true).unwrap(), relative("foo/"));
    assert_eq!(DucklakePath::new("foo/bar/", true).unwrap(), relative("foo/bar/"));
    assert_eq!(DucklakePath::new("s3://bucket/prefix/", false).unwrap(), absolute("s3://bucket/prefix/"));
    assert_eq!(DucklakePath::new("file:///data/", false).unwrap(), absolute("file:///data/"));
    assert_eq!(DucklakePath::new("/absolute/path", false).unwrap(), absolute("file:///absolute/path"));
}

#[test]
fn from_str_cases() {
    assert_eq!("foo/".parse::<DucklakePath>().unwrap(), relative("foo/"));
    assert_eq!("foo/bar/".parse::<DucklakePath>().unwrap(), relative("foo/bar/"));
    assert_eq!("s3://bucket/prefix/".parse::<DucklakePath>().unwrap(), absolute("s3://bucket/prefix/"));
    assert_eq!("file:///data/".parse::<DucklakePath>().unwrap(), absolute("file:///data/"));
    assert_eq!("/absolute/path".parse::<DucklakePath>().unwrap(), absolute("file:///absolute/path"));
}

#[test]
fn is_relative_cases() {
    assert!(relative("").is_relative());
    assert!(relative("foo/").is_relative());
    assert!(!absolute("s3://bucket/").is_relative());
    assert!(!absolute("file:///").is_relative());
}

#[test]
fn join_cases() {
    assert_eq!(relative("foo/").join(&relative("bar")), relative("foo/bar"));
    assert_eq!(relative("foo/").join(&relative("bar/baz")), relative("foo/bar/baz"));
    assert_eq!(
        absolute("s3://bucket/prefix/").join(&relative("file.parquet")),
        absolute("s3://bucket/prefix/file.parquet")
    );
    assert_eq!(absolute("file:///data/").join(&relative("x.parquet")), absolute("file:///data/x.parquet"));
    assert_eq!(relative("foo/").join(&absolute("s3://bucket/")), absolute("s3://bucket/"));
    assert_eq!(absolute("s3://a/").join(&absolute("s3://b/")), absolute("s3://b/"));
}

#[test]
fn try_join_refuses_relative_base_without_trailing_slash() {
    assert_eq!(relative("foo").try_join(&relative("bar")), None);
    assert_eq!(relative("foo/").try_join(&relative("bar")), Some(relative("foo/bar")));
}

#[test]
fn join_str_cases() {
    assert_eq!(relative("foo/").join_str("bar"), relative("foo/bar"));
    assert_eq!(absolute("s3://bucket/").join_str("file.parquet"), absolute("s3://bucket/file.parquet"));
}

#[test]
fn ensure_directory_cases() {
    assert_eq!(relative("foo").ensure_directory(), relative("foo/"));
    assert_eq!(relative("foo/").ensure_directory(), relative("foo/"));
    assert_eq!(absolute("s3://bucket/prefix").ensure_directory(), absolute("s3://bucket/prefix/"));
    assert_eq!(absolute("s3://bucket/prefix/").ensure_directory(), absolute("s3://bucket/prefix/"));
    assert_eq!(absolute("file:///data").ensure_directory(), absolute("file:///data/"));
}

#[test]
fn as_str_and_text_cases() {
    assert_eq!(relative("foo/").as_str(), "foo/");
    assert_eq!(relative("").as_str(), "");
    assert_eq!(absolute("s3://bucket/prefix/").as_str(), "s3://bucket/prefix/");
    assert_eq!(relative("foo/").to_text(), "foo/");
    assert_eq!(absolute("s3://bucket/prefix/").to_text(), "s3://bucket/prefix/");
}

#[test]
fn resolve_relative_path_against_working_directory() {
    let path = relative("data/file.parquet").resolve("/work").unwrap();
    assert_eq!(path, Path::Local { path: "/work/data/file.parquet".to_string() });
}

#[test]
fn path_new_azure_and_errors() {
    assert!(matches!(Path::new("az://container/blob.parquet"), Ok(Path::Azure { .. })));
    assert!(matches!(Path::new("ftp://host/file"), Err(DucklakeError::UnsupportedUrlScheme(_))));
    assert!(matches!(DucklakePath::parse("http://[bad"), Err(DucklakeError::InvalidPath { .. })));
}

#[test]
fn file_urls_take_the_file_path_they_stand_for() {
    assert_eq!(Path::from_file_path("file:///tmp/x", Some("/tmp/x".to_string())).unwrap(), Path::Local {
        path: "/tmp/x".to_string()
    });
    assert!(matches!(
        Path::from_file_path("file://host/x", None),
        Err(DucklakeError::InvalidPath { path, .. }) if path == "file://host/x"
    ));
    assert!(matches!(Path::new("file://otherhost/x"), Err(DucklakeError::InvalidPath { .. })));
}

#[test]
fn directory_form_is_stable_for_urls() {
    let once = absolute("file:///data").ensure_directory();
    assert_eq!(once, absolute("file:///data/"));
    assert_eq!(once.ensure_directory(), once);
    assert_eq!(absolute("s3://bucket/prefix/").ensure_directory(), absolute("s3://bucket/prefix/"));
}

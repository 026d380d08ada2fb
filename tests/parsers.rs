use ssh_pool::{
    get_file_name, mode_to_permissions, parse_file_uri, split_path, ContentRange, Range, SftpFileUri,
    ERR_CODE_SFTP_INVALID_URI,
};

#[test]
fn test_sftp_file_uri_from_str() {
    let uri = "sftp:123:/path/to/file";
    let result = SftpFileUri::from_str(uri);
    assert!(result.is_some(), "@test_sftp_file_uri_from_str: parse fail. {uri}");
    let sftp_uri = result.unwrap();
    assert_eq!(sftp_uri.target_id, 123, "@test_sftp_file_uri_from_str: parse target_id fail. {uri}");
    assert_eq!(sftp_uri.path, "/path/to/file", "@test_sftp_file_uri_from_str: parse path fail. {uri}");

    let uri = "ftp:123:/path/to/file";
    let result = SftpFileUri::from_str(uri);
    assert!(result.is_none(), "@test_sftp_file_uri_from_str: Invalid protocol. {uri}");

    let uri = "sftp:abc:/path/to/file";
    let result = SftpFileUri::from_str(uri);
    assert!(result.is_none(), "@test_sftp_file_uri_from_str: Invalid target_id. {uri}");

    let uri = "sftp:123:";
    let result = SftpFileUri::from_str(uri);
    assert!(result.is_none(), "@test_sftp_file_uri_from_str: Invalid path. {uri}");

    let uri = "sftp:123:path/to/file";
    let result = SftpFileUri::from_str(uri);
    assert!(result.is_none(), "@test_sftp_file_uri_from_str: Invalid path. {uri}");
}

#[test]
fn test_mode_to_permissions() {
    assert_eq!(mode_to_permissions(0o777), "rwxrwxrwx", "@test_mode_to_permissions: 0o777 fail");
    assert_eq!(mode_to_permissions(0o755), "rwxr-xr-x", "@test_mode_to_permissions: 0o755 fail");
    assert_eq!(mode_to_permissions(0o700), "rwx------", "@test_mode_to_permissions: 0o700 fail");
    assert_eq!(mode_to_permissions(0o666), "rw-rw-rw-", "@test_mode_to_permissions: 0o666 fail");
    assert_eq!(mode_to_permissions(0o644), "rw-r--r--", "@test_mode_to_permissions: 0o644 fail");
    assert_eq!(mode_to_permissions(0o444), "r--r--r--", "@test_mode_to_permissions: 0o444 fail");
    assert_eq!(mode_to_permissions(0o222), "-w--w--w-", "@test_mode_to_permissions: 0o222 fail");
    assert_eq!(mode_to_permissions(0o111), "--x--x--x", "@test_mode_to_permissions: 0o111 fail");
    assert_eq!(mode_to_permissions(0o000), "---------", "@test_mode_to_permissions: 0o000 fail");
}

#[test]
fn test_split_path() {
    assert_eq!(split_path("/"), None, "@split_path: Root path should return None");
    assert_eq!(split_path("a"), None, "@split_path: Path should starts with slash");
    assert_eq!(split_path("/foo"), Some(("/", "foo")), "@split_path: /foo fail");
    assert_eq!(split_path("/foo/bar"), Some(("/foo/", "bar")), "@split_path: /foo/bar fail");
    assert_eq!(split_path("/foo/bar/"), Some(("/foo/", "bar")), "@split_path: /foo/bar/ fail");
}

#[test]
fn test_content_range_from_header() {
    let header = "bytes 0-1023/1024";
    let range = ContentRange::from_str(header).unwrap();
    assert_eq!(range.start, 0, "@test_content_range_from_header: start fail");
    assert_eq!(range.end, 1023, "@test_content_range_from_header: end fail");
    assert_eq!(range.total, 1024, "@test_content_range_from_header: total fail");

    let header = "  bytes 200-299/1000  ";
    let range = ContentRange::from_str(header).unwrap();
    assert_eq!(range.start, 200, "@test_content_range_from_header: start with whitespace fail");
    assert_eq!(range.end, 299, "@test_content_range_from_header: end with whitespace fail");
    assert_eq!(range.total, 1000, "@test_content_range_from_header: total with whitespace fail");

    let header = "bytes 0-0/1";
    let range = ContentRange::from_str(header).unwrap();
    assert_eq!(range.start, 0, "@test_content_range_from_header: single byte start fail");
    assert_eq!(range.end, 0, "@test_content_range_from_header: single byte end fail");
    assert_eq!(range.total, 1, "@test_content_range_from_header: single byte total fail");
}

#[test]
fn content_range_rejects_bad_headers() {
    assert!(ContentRange::from_str("bytes 5-4/10").is_none());
    assert!(ContentRange::from_str("bytes 0-10/10").is_none());
    assert!(ContentRange::from_str("bytes 0-9").is_none());
    assert!(ContentRange::from_str("bytes=0-9/10").is_none());
    assert!(ContentRange::from_str("bytes a-9/10").is_none());
    assert!(ContentRange::from_str("bytes -1-9/10").is_none());
    assert!(ContentRange::from_str("bytes 0-9/99999999999999999999999").is_none());
    let r = ContentRange::from_str("bytes +1-+2/+3").unwrap();
    assert_eq!((r.start, r.end, r.total), (1, 2, 3));
}

#[test]
fn range_header_parsing() {
    let r = Range::from_str("bytes=0-1023").unwrap();
    assert_eq!((r.start, r.end), (0, 1023));
    let r = Range::from_str("\t bytes=7-7 \n").unwrap();
    assert_eq!((r.start, r.end), (7, 7));
    assert!(Range::from_str("bytes=9-3").is_none());
    assert!(Range::from_str("bytes=0-").is_none());
    assert!(Range::from_str("bytes 0-5").is_none());
    assert!(Range::from_str("bytes=0-5/6").is_none());
}

#[test]
fn uri_edge_cases() {
    let u = SftpFileUri::from_str("sftp:-7:/a/b/").unwrap();
    assert_eq!(u.target_id, -7);
    assert_eq!(u.path, "/a/b");
    let u = SftpFileUri::from_str("sftp:1:/").unwrap();
    assert_eq!(u.path, "");
    let u = SftpFileUri::from_str("sftp:1:/x:y").unwrap();
    assert_eq!(u.path, "/x:y");
    assert!(SftpFileUri::from_str("sftp:1").is_none());
    assert!(SftpFileUri::from_str("sftp:2147483648:/a").is_none());
    assert_eq!(SftpFileUri::from_str("sftp:-2147483648:/a").unwrap().target_id, i32::MIN);
    assert!(SftpFileUri::from_str("sftps:1:/a").is_none());
    assert!(SftpFileUri::from_str("").is_none());
}

#[test]
fn parse_file_uri_reports_invalid_uri() {
    let e = parse_file_uri("nope").err().unwrap();
    assert_eq!(e.code, ERR_CODE_SFTP_INVALID_URI);
    assert_eq!(e.message, "invalid uri");
    assert_eq!(parse_file_uri("sftp:5:/etc").ok().unwrap().target_id, 5);
}

#[test]
fn file_names() {
    assert_eq!(get_file_name("/foo/bar.txt"), "bar.txt");
    assert_eq!(get_file_name("plain"), "plain");
    assert_eq!(get_file_name("/foo/"), "");
    assert_eq!(split_path("//"), Some(("/", "")));
    assert_eq!(split_path(""), None);
}

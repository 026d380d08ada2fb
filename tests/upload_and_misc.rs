use ssh_pool::{cp_command, home_path, rm_rf_command, show_entry, system_is_windows};
use ssh_pool::{
    content_disposition, download_file_name, download_window, next_chunk_len, DOWNLOAD_CHUNK_SIZE,
    ERR_CODE_SFTP_DOWNLOAD_INVALID_REQUEST,
};
use ssh_pool::{
    auth_outcome, connect_plan, plan_upload, AuthStep, ExecOutput, FileKind, PoolError, SftpFile,
    SftpUploadResponse, Target, TargetAuthMethod, UploadProgress, ERR_CODE_SFTP_UPLOAD_INVALID_REQUEST,
};

#[test]
fn upload_plan_without_range() {
    let p = plan_upload(Some("1024"), None).unwrap();
    assert_eq!((p.file_size, p.start, p.range_len), (1024, 0, 1024));
    let p = plan_upload(Some("10"), Some("garbage")).unwrap();
    assert_eq!((p.file_size, p.start, p.range_len), (10, 0, 10));
}

#[test]
fn upload_plan_with_range() {
    let p = plan_upload(Some("100"), Some("bytes 200-299/1000")).unwrap();
    assert_eq!((p.file_size, p.start, p.range_len), (1000, 200, 100));
}

#[test]
fn upload_plan_errors() {
    assert_eq!(plan_upload(None, None).err().unwrap().code, ERR_CODE_SFTP_UPLOAD_INVALID_REQUEST);
    assert_eq!(plan_upload(Some("x1"), None).err().unwrap().code, ERR_CODE_SFTP_UPLOAD_INVALID_REQUEST);
}

#[test]
fn upload_progress_counts() {
    let mut p = UploadProgress::new(10);
    assert!(p.accept(4).is_ok());
    assert!(p.finish().is_err());
    assert!(p.accept(6).is_ok());
    assert_eq!(p.written(), 10);
    assert!(p.finish().is_ok());
    let e = p.accept(1).err().unwrap();
    assert_eq!(e.code, ERR_CODE_SFTP_UPLOAD_INVALID_REQUEST);
    assert_eq!(p.written(), 10);
}

#[test]
fn upload_response_is_lower_hex() {
    let r = SftpUploadResponse::from_digest(&[0xab, 0x01, 0xff]);
    assert_eq!(r.hash, "ab01ff");
    assert_eq!(SftpUploadResponse::from_digest(&[]).hash, "");
}

#[test]
fn exec_output_decides_on_status() {
    let mut o = ExecOutput::new();
    o.on_data(b"exec ");
    o.on_extended_data(b"warn");
    o.on_exit_status(0);
    o.on_data(b"hello done");
    assert_eq!(o.finish().ok().unwrap(), b"exec hello done".to_vec());

    let mut o = ExecOutput::new();
    o.on_extended_data(b"bad");
    o.on_exit_status(2);
    assert_eq!(o.finish().err().unwrap(), (Some(2), b"bad".to_vec()));
    assert_eq!(ExecOutput::new().finish().err().unwrap(), (None, Vec::new()));
}

fn target(method: TargetAuthMethod) -> Target {
    Target {
        id: 1,
        host: "127.0.0.1".to_string(),
        port: None,
        method,
        user: "root".to_string(),
        key: None,
        password: Some("123456".to_string()),
        system: Some("windows".to_string()),
    }
}

#[test]
fn connect_plans() {
    let p = connect_plan(&target(TargetAuthMethod::Password)).unwrap();
    assert_eq!(p.host, "127.0.0.1");
    assert_eq!(p.port, 22);
    match p.auth {
        AuthStep::Password { user, password } => {
            assert_eq!(user, "root");
            assert_eq!(password, "123456");
        }
        _ => panic!("expected password auth"),
    }
    let mut t = target(TargetAuthMethod::PrivateKey);
    t.port = Some(2222);
    t.key = Some("KEY".to_string());
    let p = connect_plan(&t).unwrap();
    assert_eq!(p.port, 2222);
    match p.auth {
        AuthStep::PublicKey { user, key, passphrase } => {
            assert_eq!(user, "root");
            assert_eq!(key, "KEY");
            assert_eq!(passphrase, Some("123456".to_string()));
        }
        _ => panic!("expected key auth"),
    }
    assert_eq!(connect_plan(&target(TargetAuthMethod::NoAuth)).err(), Some(PoolError::AuthFailure));
    assert_eq!(auth_outcome(false), Err(PoolError::AuthFailure));
    assert_eq!(auth_outcome(true), Ok(()));
}

#[test]
fn auth_method_codes() {
    assert_eq!(TargetAuthMethod::try_from(1), Ok(TargetAuthMethod::Password));
    assert_eq!(TargetAuthMethod::try_from(2), Ok(TargetAuthMethod::PrivateKey));
    assert_eq!(TargetAuthMethod::try_from(3), Ok(TargetAuthMethod::NoAuth));
    assert!(TargetAuthMethod::try_from(4).is_err());
    assert_eq!(TargetAuthMethod::PrivateKey.code(), 2);
}

#[test]
fn sftp_file_entries() {
    let f = SftpFile::from_name_attrs("a".to_string(), FileKind::Dir, Some(4096), Some(1), Some(2), Some(0o40755));
    assert_eq!(f.kind, 'd');
    assert_eq!(f.permissions, "rwxr-xr-x");
    assert_eq!(f.size, Some(4096));
    let g = SftpFile::from_name_attrs("b".to_string(), FileKind::Other, None, None, None, None);
    assert_eq!(g.kind, '?');
    assert_eq!(g.permissions, "---------");
    let d = SftpFile::default();
    assert_eq!(d.kind, '?');
    assert_eq!(d.name, "");
}

#[test]
fn shell_commands() {
    assert_eq!(rm_rf_command("/tmp/a b", false), r#"rm -rf "/tmp/a b""#);
    assert_eq!(rm_rf_command("/C:/Users/x", true), r#"rd /s /q "C:\Users\x""#);
    assert_eq!(rm_rf_command("", true), r#"rd /s /q """#);
    assert_eq!(cp_command("/a", "/b/c"), r#"cp -r "/a" "/b/c""#);
    assert_eq!(home_path(true, "ignored"), "/C:");
    assert_eq!(home_path(false, "/root\n"), "/root");
    assert!(system_is_windows(Some("windows")));
    assert!(!system_is_windows(Some("Windows")));
    assert!(!system_is_windows(Some("windows10")));
    assert!(!system_is_windows(None));
    assert!(show_entry(".bashrc", Some(true)));
    assert!(!show_entry(".bashrc", None));
    assert!(!show_entry(".bashrc", Some(false)));
    assert!(show_entry("file", None));
}

#[test]
fn download_windows() {
    let e = download_window(true, Some(10), None).err().unwrap();
    assert_eq!(e.code, ERR_CODE_SFTP_DOWNLOAD_INVALID_REQUEST);
    let w = download_window(false, None, Some("bytes=0-5")).unwrap();
    assert_eq!((w.start, w.len), (0, 0));
    let w = download_window(false, Some(100), None).unwrap();
    assert_eq!((w.start, w.len), (0, 100));
    let w = download_window(false, Some(100), Some("bytes=10-19")).unwrap();
    assert_eq!((w.start, w.len), (10, 10));
    assert!(download_window(false, Some(100), Some("bytes=10-100")).is_err());
    let w = download_window(false, Some(100), Some("bogus")).unwrap();
    assert_eq!((w.start, w.len), (0, 100));
    assert_eq!(next_chunk_len(10), 10);
    assert_eq!(next_chunk_len(DOWNLOAD_CHUNK_SIZE + 1), DOWNLOAD_CHUNK_SIZE);
}

#[test]
fn download_names() {
    assert_eq!(download_file_name("/a/b.txt").unwrap(), "b.txt");
    assert_eq!(download_file_name("/a/").err().unwrap().code, ERR_CODE_SFTP_DOWNLOAD_INVALID_REQUEST);
    assert_eq!(content_disposition("b.txt"), "attachment; filename=\"b.txt\"");
}

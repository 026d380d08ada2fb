use vstd::prelude::*;

verus! {

pub const ERR_CODE_DB_ERR: u32 = 1;

pub const ERR_CODE_JSON_ERR: u32 = 2;

/// The SSH connection failed.
pub const ERR_CODE_SSH_ERR: u32 = 1000;

/// A command run over SSH failed.
pub const ERR_CODE_SSH_EXEC: u32 = 1001;

pub const ERR_CODE_SFTP_INVALID_URI: u32 = 2000;

/// An SFTP upload whose body length does not match the announced range.
pub const ERR_CODE_SFTP_UPLOAD_INVALID_BODY_LEN: u32 = 2001;

/// An SFTP upload request that is malformed.
pub const ERR_CODE_SFTP_UPLOAD_INVALID_REQUEST: u32 = 2002;

/// An SFTP download request that is malformed.
pub const ERR_CODE_SFTP_DOWNLOAD_INVALID_REQUEST: u32 = 2003;

/// An error as the HTTP endpoints report it: a numeric code and a message.
#[derive(Debug)]
pub struct ApiErr {
    pub code: u32,
    pub message: String,
}

} // verus!

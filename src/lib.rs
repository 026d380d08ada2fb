//! Bookkeeping for a pool of SSH transports and the channels and SFTP
//! sessions multiplexed over them, together with the small parsers and
//! decisions the HTTP endpoints rely on.
//!
//! The pool is a state machine: [`SshSessionPool`] decides, the caller
//! performs the network work those decisions call for (connect, open a
//! channel, disconnect) and reports back. Its layers are
//! [`ResourcePool`] (a bounded FIFO pool), [`Connection`] (one transport
//! and its children), [`ConnectionSet`] (the live and retired connections
//! of one kind for one target) and [`SshSession`] (both kinds for one
//! target). The properties that relate several steps are proved in
//! [`laws`].

mod api_err;
mod commands;
mod config;
mod connection;
mod connection_set;
mod download;
mod dto;
mod error;
mod exec_output;
mod http_range;
mod info;
pub mod laws;
mod perms;
mod pool;
mod resource_pool;
mod session;
mod target;
mod text;
mod upload;
mod uri;

pub use api_err::{
    ApiErr, ERR_CODE_DB_ERR, ERR_CODE_JSON_ERR, ERR_CODE_SFTP_INVALID_URI,
    ERR_CODE_SFTP_DOWNLOAD_INVALID_REQUEST, ERR_CODE_SFTP_UPLOAD_INVALID_BODY_LEN, ERR_CODE_SFTP_UPLOAD_INVALID_REQUEST, ERR_CODE_SSH_ERR,
    ERR_CODE_SSH_EXEC,
};
pub use commands::{cp_command, home_path, rm_rf_command, show_entry, system_is_windows};
pub use config::Config;
pub use connection::{ChildLease, ConnView, Connection, ConnectionKind};
pub use connection_set::{Begin, ConnectionSet, SetView};
pub use download::{
    content_disposition, download_file_name, download_window, next_chunk_len, DownloadWindow,
    DOWNLOAD_CHUNK_SIZE,
};
pub use dto::{
    FileKind, QueryTargetId, SftpFile, SftpFileUriPayload, SftpLsPayload, SftpRenamePayload,
    SshSessionExpirePayload, TargetRemovePayload,
};
pub use error::PoolError;
pub use exec_output::{ExecOutput, ExecView};
pub use http_range::{ContentRange, Range};
pub use info::ConnectionInfo;
pub use perms::mode_to_permissions;
pub use pool::{PoolStateView, SshSessionPool};
pub use resource_pool::{PoolView, ResourcePool};
pub use session::{SessionView, SshSession};
pub use target::{auth_outcome, connect_plan, AuthStep, ConnectPlan, Target, TargetAuthMethod};
pub use upload::{plan_upload, SftpUploadResponse, UploadPlan, UploadProgress};
pub use uri::{get_file_name, parse_file_uri, split_path, SftpFileUri};

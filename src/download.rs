use vstd::prelude::*;

use crate::api_err::{ApiErr, ERR_CODE_SFTP_DOWNLOAD_INVALID_REQUEST};
use crate::http_range::{range_of, Range};
use crate::text::{last_field, rfind_char};

verus! {

/// Bytes read from the remote file per body chunk.
pub const DOWNLOAD_CHUNK_SIZE: u64 = 8192;

/// The part of a file a download sends: `len` bytes from offset `start`.
#[derive(Debug)]
pub struct DownloadWindow {
    pub start: u64,
    pub len: u64,
}

fn invalid_request(message: &str) -> (e: ApiErr)
    ensures
        e.code == ERR_CODE_SFTP_DOWNLOAD_INVALID_REQUEST,
        e.message@ == message@,
{
    ApiErr { code: ERR_CODE_SFTP_DOWNLOAD_INVALID_REQUEST, message: String::from_str(message) }
}

/// The name a downloaded file is offered under: the last component of its
/// path, which must not be empty.
pub fn download_file_name(path: &str) -> (r: Result<String, ApiErr>)
    ensures
        last_field(path@, '/').len() > 0 ==> (r matches Ok(n) && n@ == last_field(path@, '/')),
        last_field(path@, '/').len() == 0 ==> (r matches Err(e)
            && e.code == ERR_CODE_SFTP_DOWNLOAD_INVALID_REQUEST),
{
    let n = path.unicode_len();
    let start = match rfind_char(path, '/', n) {
        Some(i) => i + 1,
        None => 0,
    };
    if start == n {
        return Err(invalid_request("uri path can not end with /"));
    }
    Ok(String::from_str(path.substring_char(start, n)))
}

/// What a download of a file of `size` bytes (unknown counts as empty)
/// sends, given its `Range` header value. A directory cannot be
/// downloaded; an empty file sends nothing whatever the range; a usable
/// range must end inside the file; without one the whole file is sent.
pub fn download_window(is_dir: bool, size: Option<u64>, range: Option<&str>) -> (r: Result<DownloadWindow, ApiErr>)
    ensures
        is_dir ==> (r matches Err(e) && e.code == ERR_CODE_SFTP_DOWNLOAD_INVALID_REQUEST),
        !is_dir ==> ({
            let fs: nat = match size {
                Some(s) => s as nat,
                None => 0,
            };
            let parsed = match range {
                Some(h) => range_of(h@),
                None => None,
            };
            if fs == 0 {
                r matches Ok(w) && w.start == 0 && w.len == 0
            } else {
                match parsed {
                    Some((a, b)) => if b < fs {
                        r matches Ok(w) && w.start == a && w.len == b - a + 1
                    } else {
                        r matches Err(e) && e.code == ERR_CODE_SFTP_DOWNLOAD_INVALID_REQUEST
                    },
                    None => r matches Ok(w) && w.start == 0 && w.len == fs,
                }
            }
        }),
{
    if is_dir {
        return Err(invalid_request("file is a directory"));
    }
    let fs = match size {
        Some(s) => s,
        None => 0,
    };
    if fs == 0 {
        return Ok(DownloadWindow { start: 0, len: 0 });
    }
    let parsed = match range {
        Some(h) => Range::from_str(h),
        None => None,
    };
    match parsed {
        Some(rg) => {
            if rg.end as u64 >= fs {
                return Err(invalid_request("range end exceed file size"));
            }
            Ok(DownloadWindow { start: rg.start as u64, len: (rg.end - rg.start) as u64 + 1 })
        },
        None => Ok(DownloadWindow { start: 0, len: fs }),
    }
}

/// Size of the next body chunk when `remaining` bytes are left to send.
pub fn next_chunk_len(remaining: u64) -> (r: u64)
    ensures
        r == if remaining < DOWNLOAD_CHUNK_SIZE { remaining } else { DOWNLOAD_CHUNK_SIZE },
{
    if remaining < DOWNLOAD_CHUNK_SIZE {
        remaining
    } else {
        DOWNLOAD_CHUNK_SIZE
    }
}

/// The `Content-Disposition` value offering `file_name` as an attachment.
pub fn content_disposition(file_name: &str) -> (r: String)
    ensures
        r@ == seq!['a', 't', 't', 'a', 'c', 'h', 'm', 'e', 'n', 't', ';', ' ', 'f', 'i', 'l', 'e', 'n', 'a', 'm', 'e', '=', '"']
            + file_name@ + seq!['"'],
{
    let mut r = String::from_str("attachment; filename=\"");
    r.append(file_name);
    r.append("\"");
    proof {
        reveal_strlit("attachment; filename=\"");
        reveal_strlit("\"");
        assert(r@ =~= seq!['a', 't', 't', 'a', 'c', 'h', 'm', 'e', 'n', 't', ';', ' ', 'f', 'i', 'l', 'e', 'n', 'a', 'm', 'e', '=', '"']
            + file_name@ + seq!['"']);
    }
    r
}

} // verus!

use vstd::prelude::*;

use crate::api_err::{ApiErr, ERR_CODE_SFTP_UPLOAD_INVALID_REQUEST};
use crate::http_range::{content_range_of, ContentRange};
use crate::text::{parse_unsigned, parse_unsigned_at};

verus! {

/// Where an upload writes: the size the file is set to, the offset the
/// body goes to, and how many bytes the body must have.
#[derive(Debug)]
pub struct UploadPlan {
    pub file_size: usize,
    pub start: usize,
    pub range_len: usize,
}

/// The lower-case hex digit of `n` (below 16).
pub open spec fn hex_digit(n: u8) -> char {
    if n < 10 {
        (('0' as u8) + n) as char
    } else {
        (('a' as u8) + n - 10) as char
    }
}

/// Two lower-case hex digits per byte, high nibble first.
pub open spec fn hex_of(b: Seq<u8>) -> Seq<char> {
    Seq::new(
        2 * b.len(),
        |i: int| if i % 2 == 0 {
            hex_digit(b[i / 2] / 16)
        } else {
            hex_digit(b[i / 2] % 16)
        },
    )
}

/// Relies on hex::encode: lower-case hex, two digits per byte, high
/// nibble first.
#[verifier::external_body]
fn to_hex(b: &[u8]) -> (r: String)
    ensures
        r@ == hex_of(b@),
{
    hex::encode(b)
}

fn invalid_request(message: &str) -> (e: ApiErr)
    ensures
        e.code == ERR_CODE_SFTP_UPLOAD_INVALID_REQUEST,
        e.message@ == message@,
{
    ApiErr { code: ERR_CODE_SFTP_UPLOAD_INVALID_REQUEST, message: String::from_str(message) }
}

/// Plans an upload from its `Content-Length` and `Content-Range` header
/// values. Without a usable range the whole file is the body; with one the
/// file gets the announced total size and the body covers `start..=end`.
/// A missing or non-numeric length is an invalid request; an unusable range
/// header is ignored.
pub fn plan_upload(content_length: Option<&str>, content_range: Option<&str>) -> (r: Result<UploadPlan, ApiErr>)
    ensures
        match content_length {
            None => r matches Err(e) && e.code == ERR_CODE_SFTP_UPLOAD_INVALID_REQUEST,
            Some(l) => match parse_unsigned(l@, usize::MAX as nat) {
                None => r matches Err(e) && e.code == ERR_CODE_SFTP_UPLOAD_INVALID_REQUEST,
                Some(len) => {
                    let range = match content_range {
                        Some(h) => content_range_of(h@),
                        None => None,
                    };
                    match range {
                        Some((a, b, n)) => r matches Ok(p) && p.file_size == n && p.start == a
                            && p.range_len == b - a + 1,
                        None => r matches Ok(p) && p.file_size == len && p.start == 0 && p.range_len == len,
                    }
                },
            },
        },
{
    let len = match content_length {
        None => return Err(invalid_request("content-length not found")),
        Some(l) => match parse_unsigned_at(l, 0, l.unicode_len(), usize::MAX as u64) {
            Some(v) => {
                proof {
                    assert(l@.subrange(0, l@.len() as int) =~= l@);
                }
                v as usize
            },
            None => {
                proof {
                    assert(l@.subrange(0, l@.len() as int) =~= l@);
                }
                return Err(invalid_request("invalid content-length"));
            },
        },
    };
    let range = match content_range {
        Some(h) => ContentRange::from_str(h),
        None => None,
    };
    match range {
        Some(r) => Ok(UploadPlan { file_size: r.total, start: r.start, range_len: r.end - r.start + 1 }),
        None => Ok(UploadPlan { file_size: len, start: 0, range_len: len }),
    }
}

/// Counts the bytes of an upload body against the length it must have.
pub struct UploadProgress {
    range_len: usize,
    written: usize,
}

impl UploadProgress {
    pub closed spec fn expected(&self) -> nat {
        self.range_len as nat
    }

    pub closed spec fn written_spec(&self) -> nat {
        self.written as nat
    }

    pub open spec fn inv(&self) -> bool {
        self.written_spec() <= self.expected()
    }

    pub fn new(range_len: usize) -> (p: Self)
        ensures
            p.inv(),
            p.expected() == range_len,
            p.written_spec() == 0,
    {
        UploadProgress { range_len, written: 0 }
    }

    pub fn written(&self) -> (r: usize)
        ensures
            r == self.written_spec(),
    {
        self.written
    }

    /// Takes in a chunk of `n` bytes; refuses it if the body would grow
    /// past the expected length.
    pub fn accept(&mut self, n: usize) -> (r: Result<(), ApiErr>)
        requires
            old(self).inv(),
        ensures
            final(self).inv(),
            final(self).expected() == old(self).expected(),
            old(self).written_spec() + n <= old(self).expected() ==> r is Ok
                && final(self).written_spec() == old(self).written_spec() + n,
            old(self).written_spec() + n > old(self).expected() ==> (r matches Err(e)
                && e.code == ERR_CODE_SFTP_UPLOAD_INVALID_REQUEST)
                && final(self).written_spec() == old(self).written_spec(),
    {
        if n > self.range_len - self.written {
            return Err(invalid_request("body length exceeds expected range length"));
        }
        self.written = self.written + n;
        Ok(())
    }

    /// Checks, once the body has ended, that it had the expected length.
    pub fn finish(&self) -> (r: Result<(), ApiErr>)
        requires
            self.inv(),
        ensures
            r is Ok <==> self.written_spec() == self.expected(),
            r matches Err(e) ==> e.code == ERR_CODE_SFTP_UPLOAD_INVALID_REQUEST,
    {
        if self.written != self.range_len {
            return Err(invalid_request("body length mismatch"));
        }
        Ok(())
    }
}

/// What an upload answers: the hex SHA-256 digest of the body.
#[derive(Debug)]
pub struct SftpUploadResponse {
    pub hash: String,
}

impl SftpUploadResponse {
    /// The response for a body whose digest is `digest`.
    pub fn from_digest(digest: &[u8]) -> (r: SftpUploadResponse)
        ensures
            r.hash@ == hex_of(digest@),
    {
        SftpUploadResponse { hash: to_hex(digest) }
    }
}

} // verus!

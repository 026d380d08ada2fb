use vstd::prelude::*;

use crate::api_err::{ApiErr, ERR_CODE_SFTP_INVALID_URI};
use crate::text::{field0, field1, find_char, find_from, has_field1, field_end, last_field, parse_i32, parse_i32_at, rfind_before, rfind_char};

verus! {

/// What an `sftp:<target id>:<path>` URI names: the target and the
/// absolute path, with one trailing `/` dropped. The path is everything
/// after the second `:`.
pub open spec fn sftp_uri_of(s: Seq<char>) -> Option<(i32, Seq<char>)> {
    if field0(s, ':') != seq!['s', 'f', 't', 'p'] || !has_field1(s, ':') {
        None
    } else {
        match parse_i32(field1(s, ':')) {
            None => None,
            Some(id) => {
                let p1 = find_from(s, ':', find_from(s, ':', 0) + 1);
                if p1 == -1 {
                    None
                } else {
                    let path = s.skip(p1 + 1);
                    if path.len() == 0 || path[0] != '/' {
                        None
                    } else if path.last() == '/' {
                        Some((id, path.drop_last()))
                    } else {
                        Some((id, path))
                    }
                }
            },
        }
    }
}

/// The parent directory (with its trailing `/`) and the last name of an
/// absolute path; a trailing `/` is ignored. None for `/` itself and for a
/// relative path.
pub open spec fn split_path_of(p: Seq<char>) -> Option<(Seq<char>, Seq<char>)> {
    if p == seq!['/'] || p.len() == 0 || p[0] != '/' {
        None
    } else {
        let f = last_field(p, '/');
        if f.len() == 0 {
            let p1 = p.drop_last();
            let f1 = last_field(p1, '/');
            Some((p1.take(p1.len() - f1.len()), f1))
        } else {
            Some((p.take(p.len() - f.len()), f))
        }
    }
}

/// A file on a target, as the SFTP endpoints address it.
#[derive(Debug)]
pub struct SftpFileUri<'a> {
    pub target_id: i32,
    pub path: &'a str,
}

impl<'a> SftpFileUri<'a> {
    /// Parses `sftp:<target id>:<absolute path>`.
    pub fn from_str(s: &'a str) -> (r: Option<SftpFileUri<'a>>)
        ensures
            match sftp_uri_of(s@) {
                Some((id, path)) => r matches Some(u) && u.target_id == id && u.path@ == path,
                None => r is None,
            },
    {
        let n = s.unicode_len();
        let p0 = match find_char(s, ':', 0) {
            Some(p) => p,
            None => return None,
        };
        proof {
            assert(field0(s@, ':') =~= s@.take(p0 as int));
        }
        if p0 != 4 || s.get_char(0) != 's' || s.get_char(1) != 'f' || s.get_char(2) != 't' || s.get_char(3) != 'p' {
            proof {
                if p0 == 4 {
                    assert(s@.take(4)[0] == s@[0]);
                    assert(s@.take(4)[1] == s@[1]);
                    assert(s@.take(4)[2] == s@[2]);
                    assert(s@.take(4)[3] == s@[3]);
                }
            }
            return None;
        }
        proof {
            assert(s@.take(4) =~= seq!['s', 'f', 't', 'p']);
        }
        let p1 = find_char(s, ':', p0 + 1);
        let e1 = match p1 {
            Some(p) => p,
            None => n,
        };
        proof {
            assert(field_end(s@, ':', p0 + 1) == e1);
            assert(field1(s@, ':') =~= s@.subrange(p0 + 1, e1 as int));
        }
        let target_id = match parse_i32_at(s, p0 + 1, e1) {
            Some(id) => id,
            None => return None,
        };
        let p1 = match p1 {
            Some(p) => p,
            None => return None,
        };
        let path = s.substring_char(p1 + 1, n);
        proof {
            assert(path@ =~= s@.skip(p1 + 1));
        }
        let m = path.unicode_len();
        if m == 0 || path.get_char(0) != '/' {
            return None;
        }
        if path.get_char(m - 1) == '/' {
            let trimmed = path.substring_char(0, m - 1);
            proof {
                assert(trimmed@ =~= path@.drop_last());
            }
            Some(SftpFileUri { target_id, path: trimmed })
        } else {
            Some(SftpFileUri { target_id, path })
        }
    }
}

/// [`SftpFileUri::from_str`], failing with the invalid-URI error.
pub fn parse_file_uri(file_uri_str: &str) -> (r: Result<SftpFileUri<'_>, ApiErr>)
    ensures
        match sftp_uri_of(file_uri_str@) {
            Some((id, path)) => r matches Ok(u) && u.target_id == id && u.path@ == path,
            None => r matches Err(e) && e.code == ERR_CODE_SFTP_INVALID_URI
                && e.message@ == seq!['i', 'n', 'v', 'a', 'l', 'i', 'd', ' ', 'u', 'r', 'i'],
        },
{
    match SftpFileUri::from_str(file_uri_str) {
        Some(u) => Ok(u),
        None => {
            let message = String::from_str("invalid uri");
            proof {
                reveal_strlit("invalid uri");
                assert(message@ =~= seq!['i', 'n', 'v', 'a', 'l', 'i', 'd', ' ', 'u', 'r', 'i']);
            }
            Err(ApiErr { code: ERR_CODE_SFTP_INVALID_URI, message })
        },
    }
}

/// The last component of a `/`-separated path: what follows its last `/`,
/// or the whole path if it has none.
pub fn get_file_name(path: &str) -> (r: String)
    ensures
        r@ == last_field(path@, '/'),
{
    let n = path.unicode_len();
    let start = match rfind_char(path, '/', n) {
        Some(i) => i + 1,
        None => 0,
    };
    String::from_str(path.substring_char(start, n))
}

/// The last component of `s` and where it starts.
fn last_component(s: &str) -> (r: usize)
    ensures
        r <= s@.len(),
        s@.subrange(r as int, s@.len() as int) == last_field(s@, '/'),
{
    let n = s.unicode_len();
    match rfind_char(s, '/', n) {
        Some(i) => i + 1,
        None => 0,
    }
}

/// Splits an absolute path into its parent directory, trailing `/`
/// included, and its last name. A trailing `/` on the path is ignored.
pub fn split_path(path: &str) -> (r: Option<(&str, &str)>)
    ensures
        match split_path_of(path@) {
            Some((parent, name)) => r matches Some((a, b)) && a@ == parent && b@ == name,
            None => r is None,
        },
{
    let n = path.unicode_len();
    if n == 0 || path.get_char(0) != '/' {
        return None;
    }
    if n == 1 {
        proof {
            assert(path@ =~= seq!['/']);
        }
        return None;
    }
    proof {
        assert(path@ != seq!['/']);
    }
    let k = last_component(path);
    if k == n {
        let path1 = path.substring_char(0, n - 1);
        proof {
            assert(path1@ =~= path@.drop_last());
            assert(path@.subrange(k as int, n as int).len() == 0);
        }
        let k1 = last_component(path1);
        let parent = path1.substring_char(0, k1);
        let name = path1.substring_char(k1, n - 1);
        proof {
            assert(parent@ =~= path1@.take(path1@.len() - name@.len()));
        }
        Some((parent, name))
    } else {
        let parent = path.substring_char(0, k);
        let name = path.substring_char(k, n);
        proof {
            assert(parent@ =~= path@.take(path@.len() - name@.len()));
        }
        Some((parent, name))
    }
}

} // verus!

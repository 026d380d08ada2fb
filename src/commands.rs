use vstd::prelude::*;

use crate::text::{starts_with, trim, trimmed};

verus! {

pub open spec fn quoted(s: Seq<char>) -> Seq<char> {
    seq!['"'] + s + seq!['"']
}

/// `s` with every `/` turned into `\`.
pub open spec fn backslashed(s: Seq<char>) -> Seq<char> {
    s.map_values(|c: char| if c == '/' { '\\' } else { c })
}

/// Whether a target's recorded system is Windows.
pub open spec fn is_windows(system: Option<Seq<char>>) -> bool {
    system == Some(seq!['w', 'i', 'n', 'd', 'o', 'w', 's'])
}

/// The shell command that deletes `path` recursively: `rd /s /q` with a
/// Windows path on Windows (the leading `/` dropped, `/` turned into `\`),
/// `rm -rf` elsewhere; the path in double quotes.
pub open spec fn rm_rf_command_of(path: Seq<char>, windows: bool) -> Seq<char> {
    if windows {
        let rest = if path.len() > 0 { path.skip(1) } else { path };
        seq!['r', 'd', ' ', '/', 's', ' ', '/', 'q', ' '] + quoted(backslashed(rest))
    } else {
        seq!['r', 'm', ' ', '-', 'r', 'f', ' '] + quoted(path)
    }
}

/// The shell command that copies `from` to `to` recursively.
pub open spec fn cp_command_of(from: Seq<char>, to: Seq<char>) -> Seq<char> {
    seq!['c', 'p', ' ', '-', 'r', ' '] + quoted(from) + seq![' '] + quoted(to)
}

/// Whether the recorded system of a target is Windows.
pub fn system_is_windows(system: Option<&str>) -> (r: bool)
    ensures
        r == is_windows(
            match system {
                Some(s) => Some(s@),
                None => None,
            },
        ),
{
    match system {
        Some(s) => {
            proof {
                reveal_strlit("windows");
                assert("windows"@ =~= seq!['w', 'i', 'n', 'd', 'o', 'w', 's']);
            }
            proof {
                if s@.len() == 7 {
                    assert(s@.take(7) =~= s@);
                }
            }
            s.unicode_len() == 7 && starts_with(s, "windows")
        },
        None => false,
    }
}

fn push_quoted(out: &mut String, s: &str)
    ensures
        final(out)@ == old(out)@ + quoted(s@),
{
    proof {
        reveal_strlit("\"");
    }
    out.append("\"");
    out.append(s);
    out.append("\"");
    proof {
        assert(final(out)@ =~= old(out)@ + quoted(s@));
    }
}

/// `s` with every `/` turned into `\`.
fn to_backslashes(s: &str) -> (r: String)
    ensures
        r@ == backslashed(s@),
{
    let n = s.unicode_len();
    let mut out = String::new();
    let mut i: usize = 0;
    while i < n
        invariant
            n == s@.len(),
            i <= n,
            out@ == backslashed(s@.take(i as int)),
        decreases n - i,
    {
        let c = s.get_char(i);
        let ghost before = out@;
        if c == '/' {
            out.append("\\");
            proof {
                reveal_strlit("\\");
                assert("\\"@ =~= seq!['\\']);
            }
        } else {
            let one = s.substring_char(i, i + 1);
            out.append(one);
            proof {
                assert(one@ =~= seq![c]);
            }
        }
        proof {
            let m = if c == '/' { '\\' } else { c };
            assert(out@ =~= before.push(m));
            assert(backslashed(s@.take(i + 1)) =~= backslashed(s@.take(i as int)).push(m));
        }
        i = i + 1;
    }
    proof {
        assert(s@.take(n as int) =~= s@);
    }
    out
}

/// The command that removes `path` and everything below it on a target,
/// Windows or not.
pub fn rm_rf_command(path: &str, windows: bool) -> (r: String)
    ensures
        r@ == rm_rf_command_of(path@, windows),
{
    if windows {
        let n = path.unicode_len();
        let rest = if n > 0 { path.substring_char(1, n) } else { path };
        let mut out = String::from_str("rd /s /q ");
        proof {
            reveal_strlit("rd /s /q ");
            assert(rest@ == (if path@.len() > 0 { path@.skip(1) } else { path@ }));
        }
        let converted = to_backslashes(rest);
        push_quoted(&mut out, converted.as_str());
        proof {
            assert(out@ =~= rm_rf_command_of(path@, windows));
        }
        out
    } else {
        let mut out = String::from_str("rm -rf ");
        proof {
            reveal_strlit("rm -rf ");
        }
        push_quoted(&mut out, path);
        proof {
            assert(out@ =~= rm_rf_command_of(path@, windows));
        }
        out
    }
}

/// The command that copies `from` to `to` recursively on a Unix target.
pub fn cp_command(from: &str, to: &str) -> (r: String)
    ensures
        r@ == cp_command_of(from@, to@),
{
    let mut out = String::from_str("cp -r ");
    proof {
        reveal_strlit("cp -r ");
        reveal_strlit(" ");
    }
    push_quoted(&mut out, from);
    out.append(" ");
    push_quoted(&mut out, to);
    proof {
        assert(out@ =~= cp_command_of(from@, to@));
    }
    out
}

/// The home directory to show for a target: `/C:` on Windows, else what
/// `pwd` printed, without surrounding white space.
pub fn home_path(windows: bool, pwd_output: &str) -> (r: String)
    ensures
        windows ==> r@ == seq!['/', 'C', ':'],
        !windows ==> r@ == trimmed(pwd_output@),
{
    if windows {
        let r = String::from_str("/C:");
        proof {
            reveal_strlit("/C:");
            assert(r@ =~= seq!['/', 'C', ':']);
        }
        r
    } else {
        String::from_str(trim(pwd_output))
    }
}

/// Whether a listing shows the entry `name`: hidden (dot) entries only
/// when all entries are asked for.
pub fn show_entry(name: &str, all: Option<bool>) -> (r: bool)
    ensures
        r == (all == Some(true) || !(name@.len() > 0 && name@[0] == '.')),
{
    match all {
        Some(true) => true,
        _ => !(name.unicode_len() > 0 && name.get_char(0) == '.'),
    }
}

} // verus!

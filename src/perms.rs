use vstd::prelude::*;

verus! {

/// Character `k` (0 to 8) of the `rwxrwxrwx` rendering of `mode`: owner,
/// group, others, each read, write, execute; `-` where the bit is clear.
pub open spec fn perm_char(mode: u32, k: int) -> char {
    if (mode >> ((8 - k) as u32)) & 1 == 1 {
        if k % 3 == 0 {
            'r'
        } else if k % 3 == 1 {
            'w'
        } else {
            'x'
        }
    } else {
        '-'
    }
}

/// The nine permission characters of a Unix file mode, as `ls -l` shows
/// them without the type letter (`0o755` is `rwxr-xr-x`).
pub fn mode_to_permissions(mode: u32) -> (s: String)
    ensures
        s@.len() == 9,
        forall|k: int| 0 <= k < 9 ==> #[trigger] s@[k] == perm_char(mode, k),
{
    let mut s = String::new();
    let mut k: u32 = 0;
    while k < 9
        invariant
            k <= 9,
            s@.len() == k,
            forall|j: int| 0 <= j < k ==> #[trigger] s@[j] == perm_char(mode, j),
        decreases 9 - k,
    {
        let set = (mode >> (8 - k)) & 1 == 1;
        let ghost before = s@;
        if !set {
            s.append("-");
            proof {
                reveal_strlit("-");
            }
        } else if k % 3 == 0 {
            s.append("r");
            proof {
                reveal_strlit("r");
            }
        } else if k % 3 == 1 {
            s.append("w");
            proof {
                reveal_strlit("w");
            }
        } else {
            s.append("x");
            proof {
                reveal_strlit("x");
            }
        }
        proof {
            assert(s@[k as int] == perm_char(mode, k as int));
            assert forall|j: int| 0 <= j < k implies #[trigger] s@[j] == perm_char(mode, j) by {
                assert(s@[j] == before[j]);
            }
        }
        k = k + 1;
    }
    s
}

} // verus!

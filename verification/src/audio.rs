//! Per-app volume: which audio sessions belong to the app a user named.
//!
//! The Core Audio calls and the volume levels (floating point) stay with the caller;
//! this module names processes and matches them.
use vstd::prelude::*;
use crate::text::{chars_of, contains, contains_exec, lower, push_char, string_from_range, to_lowercase};

verus! {

/// The part of a path after its last `\` or `/` (all of it when there is none).
pub open spec fn basename(s: Seq<char>) -> Seq<char>
    decreases s.len(),
{
    if s.len() == 0 {
        s
    } else if s.last() == '\\' || s.last() == '/' {
        Seq::empty()
    } else {
        basename(s.drop_last()).push(s.last())
    }
}

proof fn lemma_basename_tail(s: Seq<char>, i: int)
    requires
        0 <= i <= s.len(),
        i == 0 || s[i - 1] == '\\' || s[i - 1] == '/',
        forall|j: int| i <= j < s.len() ==> s[j] != '\\' && s[j] != '/',
    ensures
        basename(s) == s.skip(i),
    decreases s.len(),
{
    if s.len() == i {
        if s.len() > 0 {
            assert(s.skip(i) =~= Seq::<char>::empty());
        } else {
            assert(s.skip(i) =~= s);
        }
    } else {
        lemma_basename_tail(s.drop_last(), i);
        assert(s.drop_last().skip(i).push(s.last()) =~= s.skip(i));
    }
}

/// The exe file name of a process: the last piece of its image path (`chrome.exe`),
/// empty for pid 0 or when the image path could not be read.
pub fn process_name(pid: u32, image_path: Option<&str>) -> (r: String)
    ensures
        r@ == if pid == 0 {
            Seq::<char>::empty()
        } else {
            match image_path {
                Some(p) => basename(p@),
                None => Seq::<char>::empty(),
            }
        },
{
    if pid == 0 {
        return String::new();
    }
    match image_path {
        None => String::new(),
        Some(p) => {
            let cs = chars_of(p);
            let mut i = cs.len();
            loop
                invariant
                    i <= cs@.len(),
                    forall|j: int| i <= j < cs@.len() ==> cs@[j] != '\\' && cs@[j] != '/',
                ensures
                    i <= cs@.len(),
                    forall|j: int| i <= j < cs@.len() ==> cs@[j] != '\\' && cs@[j] != '/',
                    i == 0 || cs@[i - 1] == '\\' || cs@[i - 1] == '/',
                decreases i,
            {
                if i == 0 {
                    break;
                }
                if cs[i - 1] == '\\' || cs[i - 1] == '/' {
                    break;
                }
                i = i - 1;
            }
            proof {
                lemma_basename_tail(cs@, i as int);
                assert(cs@.subrange(i as int, cs@.len() as int) =~= cs@.skip(i as int));
            }
            string_from_range(cs.as_slice(), i, cs.len())
        },
    }
}

/// `str::trim_end_matches(".exe")`: every trailing `.exe` removed.
pub open spec fn trim_exe(s: Seq<char>) -> Seq<char>
    decreases s.len(),
{
    if s.len() >= 4 && s.skip(s.len() - 4) == ".exe"@ {
        trim_exe(s.take(s.len() - 4))
    } else {
        s
    }
}

fn trim_exe_exec(s: &[char]) -> (r: Vec<char>)
    ensures
        r@ == trim_exe(s@),
{
    let suf = chars_of(".exe");
    proof {
        reveal_strlit(".exe");
    }
    let mut n = s.len();
    proof {
        assert(s@.take(n as int) =~= s@);
    }
    loop
        invariant
            n <= s@.len(),
            suf@ == ".exe"@,
            suf@.len() == 4,
            trim_exe(s@) == trim_exe(s@.take(n as int)),
        ensures
            n <= s@.len(),
            trim_exe(s@) == s@.take(n as int),
        decreases n,
    {
        let ghost t = s@.take(n as int);
        if n < 4 {
            proof {
                assert(trim_exe(t) == t);
            }
            break;
        }
        let mut same = true;
        let mut k: usize = 0;
        while k < 4
            invariant
                k <= 4,
                n >= 4,
                n <= s@.len(),
                suf@.len() == 4,
                same == forall|j: int| 0 <= j < k ==> s@[n - 4 + j] == suf@[j],
            decreases 4 - k,
        {
            if s[n - 4 + k] != suf[k] {
                same = false;
            }
            k = k + 1;
        }
        proof {
            assert(t.skip(n - 4) =~= s@.subrange(n - 4, n as int));
            if same {
                assert(t.skip(n - 4) =~= suf@);
            } else {
                let j = choose|j: int| 0 <= j < 4 && s@[n - 4 + j] != suf@[j];
                assert(t.skip(n - 4)[j] != suf@[j]);
            }
        }
        if !same {
            proof {
                assert(t.skip(t.len() - 4) != ".exe"@);
                assert(trim_exe(t) == t);
            }
            break;
        }
        proof {
            assert(t.take(n - 4) =~= s@.take(n - 4));
        }
        n = n - 4;
    }
    let mut out: Vec<char> = Vec::new();
    let mut i: usize = 0;
    while i < n
        invariant
            i <= n,
            n <= s@.len(),
            out@ == s@.take(i as int),
        decreases n - i,
    {
        out.push(s[i]);
        proof {
            assert(s@.take(i + 1) =~= s@.take(i as int).push(s@[i as int]));
        }
        i = i + 1;
    }
    out
}

/// Whether an audio session of the process `exe_name` belongs to the app named `app`:
/// both lowercased and stripped of trailing `.exe`, the process part is non-empty and
/// equals or contains the app part.
pub open spec fn session_matches_spec(app: Seq<char>, exe_name: Seq<char>) -> bool {
    let target = trim_exe(lower(app));
    let base = trim_exe(lower(exe_name));
    base.len() > 0 && (base == target || contains(base, target))
}

/// Whether a session of process `exe_name` gets the volume meant for `app`.
pub fn session_matches(app: &str, exe_name: &str) -> (r: bool)
    ensures
        r == session_matches_spec(app@, exe_name@),
        app@.len() == 0 ==> r == (trim_exe(lower(exe_name@)).len() > 0),
{
    let t = to_lowercase(app);
    let tc = chars_of(t.as_str());
    let target = trim_exe_exec(tc.as_slice());
    let b = to_lowercase(exe_name);
    let bc = chars_of(b.as_str());
    let base = trim_exe_exec(bc.as_slice());
    proof {
        if app@.len() == 0 {
            assert(target@.len() == 0);
            assert(crate::text::occurs_at(base@, target@, 0)) by {
                assert(base@.subrange(0, 0) =~= target@);
            }
        }
    }
    base.len() > 0 && (crate::text::chars_eq(base.as_slice(), target.as_slice()) || contains_exec(
        base.as_slice(),
        target.as_slice(),
    ))
}

} // verus!

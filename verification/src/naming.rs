//! Output-filename resolution: a fixed set of case-insensitive input
//! extensions maps to a fixed output extension (`aud` to `mp3`, `pnz` to
//! `png`); any other name yields no output filename.

use vstd::prelude::*;
use vstd::string::StrSliceExecFns;
use vstd::string::StringExecFns;

verus! {

/// The index of the last `.` in the name, if any.
pub open spec fn last_dot(s: Seq<char>) -> Option<int>
    decreases s.len(),
{
    if s.len() == 0 {
        None
    } else if s[s.len() - 1] == '.' {
        Some(s.len() - 1)
    } else {
        last_dot(s.take(s.len() - 1))
    }
}

/// The extension names an audio container, in either letter case.
pub open spec fn is_aud_ext(ext: Seq<char>) -> bool {
    &&& ext.len() == 3
    &&& (ext[0] == 'a' || ext[0] == 'A')
    &&& (ext[1] == 'u' || ext[1] == 'U')
    &&& (ext[2] == 'd' || ext[2] == 'D')
}

/// The extension names an image container, in either letter case.
pub open spec fn is_pnz_ext(ext: Seq<char>) -> bool {
    &&& ext.len() == 3
    &&& (ext[0] == 'p' || ext[0] == 'P')
    &&& (ext[1] == 'n' || ext[1] == 'N')
    &&& (ext[2] == 'z' || ext[2] == 'Z')
}

/// The output filename an input filename maps to: the stem up to the
/// last dot, with `.mp3` substituted for an `aud` extension and `.png`
/// for a `pnz` one; `None` when no extension is recognized.
pub open spec fn spec_output_filename(name: Seq<char>) -> Option<Seq<char>> {
    match last_dot(name) {
        None => None,
        Some(d) => {
            let stem = name.take(d);
            let ext = name.skip(d + 1);
            if is_aud_ext(ext) {
                Some(stem + seq!['.', 'm', 'p', '3'])
            } else if is_pnz_ext(ext) {
                Some(stem + seq!['.', 'p', 'n', 'g'])
            } else {
                None
            }
        },
    }
}

/// A dot at `k` with none after it is the last dot.
proof fn lemma_last_dot_some(s: Seq<char>, k: int)
    requires
        0 <= k < s.len(),
        s[k] == '.',
        forall|j: int| k < j < s.len() ==> s[j] != '.',
    ensures
        last_dot(s) == Some(k),
    decreases s.len(),
{
    if k < s.len() - 1 {
        lemma_last_dot_some(s.take(s.len() - 1), k);
    }
}

/// A name without a dot has no last dot.
proof fn lemma_last_dot_none(s: Seq<char>)
    requires
        forall|j: int| 0 <= j < s.len() ==> s[j] != '.',
    ensures
        last_dot(s) is None,
    decreases s.len(),
{
    if s.len() > 0 {
        lemma_last_dot_none(s.take(s.len() - 1));
    }
}

/// Resolves the output filename for an input filename, recognizing the
/// `aud` and `pnz` extensions in either letter case.
pub fn get_output_filename(input_filename: &str) -> (r: Option<String>)
    ensures
        match r {
            Some(out) => spec_output_filename(input_filename@) == Some(out@),
            None => spec_output_filename(input_filename@) is None,
        },
{
    let n = input_filename.unicode_len();
    let mut i: usize = n;
    while i > 0 && input_filename.get_char(i - 1) != '.'
        invariant
            i <= n,
            n == input_filename@.len(),
            forall|j: int| i <= j < n ==> input_filename@[j] != '.',
        decreases i,
    {
        i = i - 1;
    }
    if i == 0 {
        proof {
            lemma_last_dot_none(input_filename@);
        }
        return None;
    }
    let ghost d: int = i - 1;
    proof {
        lemma_last_dot_some(input_filename@, d);
    }
    if n - i != 3 {
        return None;
    }
    let c0 = input_filename.get_char(i);
    let c1 = input_filename.get_char(i + 1);
    let c2 = input_filename.get_char(i + 2);
    let ghost ext = input_filename@.skip(d + 1);
    proof {
        assert(ext.len() == 3);
        assert(ext[0] == input_filename@[d + 1]);
        assert(ext[1] == input_filename@[d + 2]);
        assert(ext[2] == input_filename@[d + 3]);
    }
    let aud = (c0 == 'a' || c0 == 'A') && (c1 == 'u' || c1 == 'U') && (c2 == 'd' || c2 == 'D');
    let pnz = (c0 == 'p' || c0 == 'P') && (c1 == 'n' || c1 == 'N') && (c2 == 'z' || c2 == 'Z');
    if aud {
        let stem = input_filename.substring_char(0, i - 1);
        let out = String::from_str(stem).concat(".mp3");
        proof {
            reveal_strlit(".mp3");
            assert(".mp3"@ =~= seq!['.', 'm', 'p', '3']);
            assert(out@ == input_filename@.take(d) + seq!['.', 'm', 'p', '3']);
        }
        Some(out)
    } else if pnz {
        let stem = input_filename.substring_char(0, i - 1);
        let out = String::from_str(stem).concat(".png");
        proof {
            reveal_strlit(".png");
            assert(".png"@ =~= seq!['.', 'p', 'n', 'g']);
            assert(out@ == input_filename@.take(d) + seq!['.', 'p', 'n', 'g']);
        }
        Some(out)
    } else {
        None
    }
}

} // verus!

use vstd::prelude::*;

use crate::text::chars_of;

verus! {

/// The extension of a SubRip subtitle file.
pub open spec fn srt_extension() -> Seq<char> {
    seq!['.', 's', 'r', 't']
}

/// `path` ends with `.srt`.
pub open spec fn is_srt_name(path: Seq<char>) -> bool {
    path.len() >= 4 && path.skip(path.len() - 4) == srt_extension()
}

/// Whether a file dropped on a video is taken as its subtitles: its path
/// must end with `.srt` (the test is case-sensitive).
pub fn is_srt_path(path: &str) -> (b: bool)
    ensures
        b == is_srt_name(path@),
{
    let v = chars_of(path);
    let n = v.len();
    if n < 4 {
        return false;
    }
    let b = v[n - 4] == '.' && v[n - 3] == 's' && v[n - 2] == 'r' && v[n - 1] == 't';
    proof {
        let tail = path@.skip(n - 4);
        if b {
            assert(tail =~= srt_extension());
        } else if tail == srt_extension() {
            assert(tail[0] == '.' && tail[1] == 's' && tail[2] == 'r' && tail[3] == 't');
        }
    }
    b
}

} // verus!

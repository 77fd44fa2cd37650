//! Classification of scanned files by extension. The directory walk
//! itself is plain file-system work done by the caller; what it hands
//! in is classified here against the two fixed extension sets.

use vstd::prelude::*;
use crate::model::{PhotoFormat, ScannedPath};
use crate::paths::{ext_of, file_name_of, find_last, lemma_last_pos_bounds, lower_seq, lower_vec,
    subvec};
use crate::text::str_to_chars;

verus! {

/// The raster-preview extensions, after case folding.
pub open spec fn is_jpeg_ext(e: Seq<char>) -> bool {
    e == seq!['j', 'p', 'g'] || e == seq!['j', 'p', 'e', 'g']
}

/// The raw-sensor extensions, after case folding.
pub open spec fn is_raw_ext(e: Seq<char>) -> bool {
    e == seq!['c', 'r', '2'] || e == seq!['c', 'r', '3'] || e == seq!['a', 'r', 'w']
}

/// Is `q` the text of one of the listed paths?
pub open spec fn path_listed(paths: Seq<String>, q: Seq<char>) -> bool {
    exists|j: int| 0 <= j < paths.len() && #[trigger] paths[j]@ == q
}

/// The format a path is classified as: by its case-folded extension,
/// or nothing when the extension is unsupported or absent.
pub open spec fn spec_detect_format(p: Seq<char>) -> Option<PhotoFormat> {
    match ext_of(file_name_of(p)) {
        None => None,
        Some(e0) => {
            let e = lower_seq(e0);
            if is_jpeg_ext(e) {
                Some(PhotoFormat::Jpeg)
            } else if is_raw_ext(e) {
                Some(PhotoFormat::Raw)
            } else {
                None
            }
        },
    }
}

fn eq3(e: &Vec<char>, a: char, b: char, c: char) -> (r: bool)
    ensures
        r == (e@ =~= seq![a, b, c]),
{
    if e.len() == 3 && e[0] == a && e[1] == b && e[2] == c {
        proof {
            assert(e@ =~= seq![a, b, c]);
        }
        true
    } else {
        proof {
            assert(e@.len() == 3 && e@[0] == a && e@[1] == b && e@[2] == c ==> e@ =~= seq![
                a,
                b,
                c,
            ]);
        }
        false
    }
}

fn eq4(e: &Vec<char>, a: char, b: char, c: char, d: char) -> (r: bool)
    ensures
        r == (e@ =~= seq![a, b, c, d]),
{
    if e.len() == 4 && e[0] == a && e[1] == b && e[2] == c && e[3] == d {
        proof {
            assert(e@ =~= seq![a, b, c, d]);
        }
        true
    } else {
        proof {
            assert(e@.len() == 4 && e@[0] == a && e@[1] == b && e@[2] == c && e@[3] == d ==> e@
                =~= seq![a, b, c, d]);
        }
        false
    }
}

/// Detect the photo format from the file extension, case-insensitive.
/// Returns nothing for unsupported extensions.
pub fn detect_format(path: &str) -> (r: Option<PhotoFormat>)
    ensures
        r == spec_detect_format(path@),
{
    let chars = str_to_chars(path);
    let n = chars.len();
    proof {
        lemma_last_pos_bounds(chars@, '/');
    }
    let fname = match find_last(&chars, '/') {
        Some(i) => subvec(&chars, i + 1, n),
        None => {
            let f = subvec(&chars, 0, n);
            proof {
                assert(chars@.subrange(0, chars@.len() as int) =~= chars@);
            }
            f
        },
    };
    proof {
        assert(fname@ == file_name_of(path@));
        lemma_last_pos_bounds(fname@, '.');
    }
    let ext = match find_last(&fname, '.') {
        Some(d) if d > 0 => subvec(&fname, d + 1, fname.len()),
        _ => {
            return None;
        },
    };
    let e = lower_vec(ext);
    if eq3(&e, 'j', 'p', 'g') || eq4(&e, 'j', 'p', 'e', 'g') {
        Some(PhotoFormat::Jpeg)
    } else if eq3(&e, 'c', 'r', '2') || eq3(&e, 'c', 'r', '3') || eq3(&e, 'a', 'r', 'w') {
        Some(PhotoFormat::Raw)
    } else {
        None
    }
}

/// The positions of the supported paths from index `i` on, in order:
/// exactly the entries the classification keeps.
pub open spec fn kept_from(paths: Seq<String>, i: int) -> Seq<int>
    decreases paths.len() - i,
{
    if i < 0 || i >= paths.len() {
        Seq::empty()
    } else if spec_detect_format(paths[i]@) is Some {
        seq![i] + kept_from(paths, i + 1)
    } else {
        kept_from(paths, i + 1)
    }
}

/// Classify a list of paths handed in by the directory walk, keeping
/// exactly those with a supported extension, in order: the result
/// holds one entry per supported position, carrying that path and
/// its detected format.
pub fn classify_paths(paths: Vec<String>) -> (r: Vec<ScannedPath>)
    ensures
        r@.len() <= paths@.len(),
        r@.len() == kept_from(paths@, 0).len(),
        forall|k: int|
            0 <= k < r@.len() ==> (#[trigger] r@[k]).path@ == paths@[kept_from(paths@, 0)[k]]@
                && Some(r@[k].format) == spec_detect_format(paths@[kept_from(paths@, 0)[k]]@),
        forall|i: int| 0 <= i < r@.len() ==> path_listed(paths@, (#[trigger] r@[i]).path@),
{
    let mut out: Vec<ScannedPath> = Vec::new();
    let ghost mut kidx: Seq<int> = Seq::empty();
    let mut i: usize = 0;
    proof {
        assert(kidx + kept_from(paths@, 0) =~= kept_from(paths@, 0));
    }
    while i < paths.len()
        invariant
            i <= paths@.len(),
            out@.len() <= i,
            out@.len() == kidx.len(),
            kidx + kept_from(paths@, i as int) == kept_from(paths@, 0),
            forall|k: int| 0 <= k < kidx.len() ==> 0 <= #[trigger] kidx[k] < paths@.len(),
            forall|k: int|
                0 <= k < out@.len() ==> (#[trigger] out@[k]).path@ == paths@[kidx[k]]@ && Some(
                    out@[k].format,
                ) == spec_detect_format(paths@[kidx[k]]@),
            forall|k: int| 0 <= k < out@.len() ==> path_listed(paths@, (#[trigger] out@[k]).path@),
        decreases paths@.len() - i,
    {
        let ghost out0 = out@;
        let ghost kidx0 = kidx;
        let ghost rest = kept_from(paths@, i as int);
        let p = &paths[i];
        if let Some(format) = detect_format(p.as_str()) {
            let entry = ScannedPath { path: p.clone(), format };
            proof {
                assert(entry.path@ == paths@[i as int]@);
                assert(path_listed(paths@, entry.path@));
                assert(rest == seq![i as int] + kept_from(paths@, i + 1));
                assert(kidx0 + rest =~= kidx0.push(i as int) + kept_from(paths@, i + 1));
                kidx = kidx.push(i as int);
            }
            out.push(entry);
        } else {
            proof {
                assert(rest == kept_from(paths@, i + 1));
            }
        }
        i = i + 1;
    }
    proof {
        assert(kept_from(paths@, paths@.len() as int) =~= Seq::<int>::empty());
        assert(kidx + kept_from(paths@, paths@.len() as int) =~= kidx);
        assert(kidx == kept_from(paths@, 0));
    }
    out
}

} // verus!

//! Path text handling: the file name after the final separator, its
//! stem and extension, and the directory prefix. These are the
//! library's own rules, stated over character sequences, and they are
//! what the pairing key is built from.

use vstd::prelude::*;
use crate::text::{str_to_chars, chars_to_string, lower_ascii_char, to_lower_ascii};

verus! {

/// Index of the last occurrence of `c` in `s`, or -1 when absent.
pub open spec fn last_pos(s: Seq<char>, c: char) -> int
    decreases s.len(),
{
    if s.len() == 0 {
        -1
    } else if s.last() == c {
        s.len() - 1
    } else {
        last_pos(s.drop_last(), c)
    }
}

pub proof fn lemma_last_pos_bounds(s: Seq<char>, c: char)
    ensures
        -1 <= last_pos(s, c) < s.len(),
        last_pos(s, c) >= 0 ==> s[last_pos(s, c)] == c,
    decreases s.len(),
{
    if s.len() > 0 && s.last() != c {
        lemma_last_pos_bounds(s.drop_last(), c);
    }
}

/// The file name: everything after the last separator, or the whole
/// string when there is none.
pub open spec fn file_name_of(p: Seq<char>) -> Seq<char> {
    p.subrange(last_pos(p, '/') + 1, p.len() as int)
}

/// The directory prefix: everything before the last separator, empty
/// when there is none.
pub open spec fn dir_of(p: Seq<char>) -> Seq<char> {
    if last_pos(p, '/') < 0 {
        Seq::empty()
    } else {
        p.take(last_pos(p, '/'))
    }
}

/// The stem of a file name: the part before the last dot, unless the
/// dot is the first character or absent.
pub open spec fn stem_of(f: Seq<char>) -> Seq<char> {
    if last_pos(f, '.') <= 0 {
        f
    } else {
        f.take(last_pos(f, '.'))
    }
}

/// The extension of a file name: the part after the last dot, absent
/// when the dot is the first character or missing.
pub open spec fn ext_of(f: Seq<char>) -> Option<Seq<char>> {
    if last_pos(f, '.') <= 0 {
        None
    } else {
        Some(f.subrange(last_pos(f, '.') + 1, f.len() as int))
    }
}

/// ASCII case folding over a whole sequence.
pub open spec fn lower_seq(s: Seq<char>) -> Seq<char> {
    Seq::new(s.len(), |i: int| to_lower_ascii(s[i]))
}

/// Index of the last occurrence of `c`, or `None` when absent.
pub fn find_last(v: &Vec<char>, c: char) -> (r: Option<usize>)
    ensures
        match r {
            Some(i) => last_pos(v@, c) == i as int,
            None => last_pos(v@, c) == -1,
        },
{
    let mut j: usize = v.len();
    proof {
        assert(v@.take(v@.len() as int) =~= v@);
    }
    while j > 0
        invariant
            j <= v.len(),
            last_pos(v@, c) == last_pos(v@.take(j as int), c),
        decreases j,
    {
        if v[j - 1] == c {
            proof {
                let t = v@.take(j as int);
                assert(t.last() == v@[j - 1]);
            }
            return Some(j - 1);
        }
        proof {
            let t = v@.take(j as int);
            assert(t.last() != c);
            assert(t.drop_last() =~= v@.take(j - 1 as int));
        }
        j = j - 1;
    }
    proof {
        assert(v@.take(0) =~= Seq::<char>::empty());
    }
    None
}

/// Copy of the elements in `[from, to)`.
pub fn subvec(v: &Vec<char>, from: usize, to: usize) -> (r: Vec<char>)
    requires
        from <= to <= v@.len(),
    ensures
        r@ == v@.subrange(from as int, to as int),
{
    let mut out: Vec<char> = Vec::new();
    let mut i: usize = from;
    while i < to
        invariant
            from <= i <= to <= v@.len(),
            out@ == v@.subrange(from as int, i as int),
        decreases to - i,
    {
        out.push(v[i]);
        proof {
            assert(out@ =~= v@.subrange(from as int, i + 1 as int));
        }
        i = i + 1;
    }
    out
}

/// Case-fold a character vector in place.
pub fn lower_vec(v: Vec<char>) -> (r: Vec<char>)
    ensures
        r@ == lower_seq(v@),
{
    let mut out: Vec<char> = Vec::new();
    let mut i: usize = 0;
    while i < v.len()
        invariant
            i <= v.len(),
            out@ == lower_seq(v@).take(i as int),
        decreases v.len() - i,
    {
        out.push(lower_ascii_char(v[i]));
        proof {
            assert(out@ =~= lower_seq(v@).take(i + 1 as int));
        }
        i = i + 1;
    }
    proof {
        assert(out@ =~= lower_seq(v@));
    }
    out
}

/// Split a path into its directory prefix and its case-folded stem:
/// the pairing key of the file.
pub fn split_path(path: &str) -> (r: (String, String))
    ensures
        r.0@ == dir_of(path@),
        r.1@ == lower_seq(stem_of(file_name_of(path@))),
{
    let chars = str_to_chars(path);
    let n = chars.len();
    proof {
        lemma_last_pos_bounds(chars@, '/');
    }
    let (dir, fname) = match find_last(&chars, '/') {
        Some(i) => {
            proof {
                assert(i < n);
            }
            (subvec(&chars, 0, i), subvec(&chars, i + 1, n))
        },
        None => {
            let f = subvec(&chars, 0, n);
            proof {
                assert(chars@.subrange(0, chars@.len() as int) =~= chars@);
            }
            (Vec::new(), f)
        },
    };
    proof {
        assert(dir@ == dir_of(path@));
        assert(fname@ == file_name_of(path@));
        lemma_last_pos_bounds(fname@, '.');
    }
    let stem = match find_last(&fname, '.') {
        Some(d) if d > 0 => subvec(&fname, 0, d),
        _ => {
            let s = subvec(&fname, 0, fname.len());
            proof {
                assert(fname@.subrange(0, fname@.len() as int) =~= fname@);
            }
            s
        },
    };
    proof {
        assert(stem@ == stem_of(file_name_of(path@)));
    }
    let base = lower_vec(stem);
    (chars_to_string(&dir), chars_to_string(&base))
}

} // verus!

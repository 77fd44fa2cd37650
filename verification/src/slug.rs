//! URL-safe project slugs: lowercase a name, collapse runs of
//! non-alphanumeric characters into single hyphens, trim and truncate,
//! and append a numeric suffix until the slug is unique among the
//! slugs that already exist.

use vstd::prelude::*;
use crate::text::{
    dec_digits, is_ascii_lower, is_lower_alnum, is_lower_alnum_char, lemma_dec_digits_injective,
    lower_ascii_char, to_lower_ascii, chars_to_string, str_to_chars, u64_to_dec_string,
};
use vstd::set_lib::{lemma_int_range, lemma_len_subset, lemma_map_size, set_int_range};

verus! {

/// The characters a slug may hold: lowercase ASCII letters, digits,
/// and hyphens.
pub open spec fn slug_char_ok(c: char) -> bool {
    is_lower_alnum(c) || c == '-'
}

/// One pass over the input from position `i` on: alphanumeric
/// characters are kept (case-folded), every run of other characters
/// becomes a single hyphen. `prev_hyphen` says whether the output so
/// far ends in a hyphen produced by such a run.
pub open spec fn collapse_from(s: Seq<char>, i: int, prev_hyphen: bool) -> Seq<char>
    decreases s.len() - i,
{
    if i < 0 || i >= s.len() {
        Seq::empty()
    } else {
        let c = to_lower_ascii(s[i]);
        if is_lower_alnum(c) {
            seq![c] + collapse_from(s, i + 1, false)
        } else if prev_hyphen {
            collapse_from(s, i + 1, true)
        } else {
            seq!['-'] + collapse_from(s, i + 1, true)
        }
    }
}

pub open spec fn spec_collapse(s: Seq<char>) -> Seq<char> {
    collapse_from(s, 0, false)
}

pub open spec fn trim_leading_hyphens(s: Seq<char>) -> Seq<char>
    decreases s.len(),
{
    if s.len() > 0 && s[0] == '-' {
        trim_leading_hyphens(s.drop_first())
    } else {
        s
    }
}

pub open spec fn trim_trailing_hyphens(s: Seq<char>) -> Seq<char>
    decreases s.len(),
{
    if s.len() > 0 && s.last() == '-' {
        trim_trailing_hyphens(s.drop_last())
    } else {
        s
    }
}

/// The slug used when nothing of the name survives.
pub open spec fn default_slug() -> Seq<char> {
    seq!['p', 'r', 'o', 'j', 'e', 'c', 't']
}

/// What `slugify` returns: collapse, trim hyphens at both ends,
/// truncate to sixty characters (re-trimming a trailing hyphen the cut
/// may expose), and fall back to the default when empty.
pub open spec fn spec_slugify(s: Seq<char>) -> Seq<char> {
    let a = spec_collapse(s);
    let b = trim_trailing_hyphens(trim_leading_hyphens(a));
    let c = if b.len() > 60 {
        trim_trailing_hyphens(b.take(60))
    } else {
        b
    };
    if c.len() == 0 {
        default_slug()
    } else {
        c
    }
}

/// A well-formed slug: non-empty, at most sixty characters, only
/// slug characters, and no hyphen at either end.
pub open spec fn spec_valid_slug(s: Seq<char>) -> bool {
    &&& 1 <= s.len() <= 60
    &&& forall|i: int| 0 <= i < s.len() ==> slug_char_ok(#[trigger] s[i])
    &&& s[0] != '-'
    &&& s.last() != '-'
}

/// Does any of the existing slugs read exactly `t`?
pub open spec fn spec_contains(existing: Seq<String>, t: Seq<char>) -> bool {
    exists|i: int| 0 <= i < existing.len() && #[trigger] existing[i]@ == t
}

/// The candidate tried at suffix number `k`: `base`, a hyphen, and
/// `k` in decimal.
pub open spec fn candidate_seq(base: Seq<char>, k: nat) -> Seq<char> {
    base + seq!['-'] + dec_digits(k)
}

/// `k` is the first suffix number (counting from two) whose candidate
/// is free among the existing slugs.
pub open spec fn is_first_free(existing: Seq<String>, base: Seq<char>, k: nat) -> bool {
    &&& 2 <= k
    &&& !spec_contains(existing, candidate_seq(base, k))
    &&& forall|j: nat| 2 <= j < k ==> spec_contains(existing, #[trigger] candidate_seq(base, j))
}

/// Returns true iff the slug is non-empty, at most sixty characters,
/// holds only lowercase letters, digits and hyphens, and neither
/// starts nor ends with a hyphen.
pub fn is_valid_slug(s: &str) -> (r: bool)
    ensures
        r == spec_valid_slug(s@),
{
    let chars = str_to_chars(s);
    let n = chars.len();
    if n == 0 || n > 60 {
        return false;
    }
    if chars[0] == '-' || chars[n - 1] == '-' {
        return false;
    }
    let mut i: usize = 0;
    while i < n
        invariant
            n == chars.len(),
            chars@ == s@,
            i <= n,
            forall|j: int| 0 <= j < i ==> slug_char_ok(#[trigger] s@[j]),
        decreases n - i,
    {
        let c = chars[i];
        if !(is_lower_alnum_char(c) || c == '-') {
            return false;
        }
        i = i + 1;
    }
    true
}

/// Turn a free-form project name into a well-formed slug.
pub fn slugify(name: &str) -> (r: String)
    ensures
        r@ == spec_slugify(name@),
        spec_valid_slug(r@),
{
    let chars = str_to_chars(name);
    let ghost s = name@;

    // Collapse: keep alphanumerics lowercased, fold runs of anything
    // else into one hyphen.
    let mut out: Vec<char> = Vec::new();
    let mut prev_hyphen = false;
    let mut i: usize = 0;
    while i < chars.len()
        invariant
            chars@ == s,
            i <= chars.len(),
            out@ + collapse_from(s, i as int, prev_hyphen) == spec_collapse(s),
            forall|j: int| 0 <= j < out@.len() ==> slug_char_ok(#[trigger] out@[j]),
        decreases chars.len() - i,
    {
        let ghost out0 = out@;
        let ghost rest = collapse_from(s, i as int, prev_hyphen);
        let c = lower_ascii_char(chars[i]);
        if is_lower_alnum_char(c) {
            out.push(c);
            proof {
                assert(rest == seq![c] + collapse_from(s, i + 1, false));
                assert(out0 + rest =~= out0.push(c) + collapse_from(s, i + 1, false));
            }
            prev_hyphen = false;
        } else if !prev_hyphen {
            out.push('-');
            proof {
                assert(rest == seq!['-'] + collapse_from(s, i + 1, true));
                assert(out0 + rest =~= out0.push('-') + collapse_from(s, i + 1, true));
            }
            prev_hyphen = true;
        } else {
            proof {
                assert(rest == collapse_from(s, i + 1, true));
            }
        }
        i = i + 1;
    }
    proof {
        assert(out@ + collapse_from(s, chars@.len() as int, prev_hyphen) =~= out@);
        assert(out@ == spec_collapse(s));
    }

    // Trim leading hyphens.
    let ghost a = spec_collapse(s);
    while out.len() > 0 && out[0] == '-'
        invariant
            trim_leading_hyphens(out@) == trim_leading_hyphens(a),
            forall|j: int| 0 <= j < out@.len() ==> slug_char_ok(#[trigger] out@[j]),
        decreases out.len(),
    {
        let ghost before = out@;
        out.remove(0);
        proof {
            assert(out@ =~= before.drop_first());
        }
    }
    proof {
        assert(trim_leading_hyphens(out@) == out@);
    }

    // Trim trailing hyphens.
    let ghost l = trim_leading_hyphens(a);
    while out.len() > 0 && out[out.len() - 1] == '-'
        invariant
            trim_trailing_hyphens(out@) == trim_trailing_hyphens(l),
            out@.len() > 0 ==> out@[0] != '-',
            forall|j: int| 0 <= j < out@.len() ==> slug_char_ok(#[trigger] out@[j]),
        decreases out.len(),
    {
        let ghost before = out@;
        out.pop();
        proof {
            assert(out@ =~= before.drop_last());
        }
    }
    let ghost b = trim_trailing_hyphens(l);
    proof {
        assert(trim_trailing_hyphens(out@) == out@);
        assert(out@ == b);
    }

    // Truncate to sixty characters, then re-trim a trailing hyphen the
    // cut may have exposed.
    if out.len() > 60 {
        while out.len() > 60
            invariant
                60 <= out@.len() <= b.len(),
                out@ =~= b.take(out@.len() as int),
            decreases out.len(),
        {
            let ghost before = out@;
            out.pop();
            proof {
                assert(out@ =~= before.drop_last());
                assert forall|q: int| 0 <= q < out@.len() implies out@[q] == b[q] by {
                    assert(out@[q] == before[q]);
                    assert(before[q] == b.take(before.len() as int)[q]);
                }
                assert(out@ =~= b.take(out@.len() as int));
            }
        }
        proof {
            assert(out@ =~= b.take(60));
            assert(forall|j: int| 0 <= j < out@.len() ==> slug_char_ok(#[trigger] out@[j]));
        }
        let ghost t = b.take(60);
        while out.len() > 0 && out[out.len() - 1] == '-'
            invariant
                trim_trailing_hyphens(out@) == trim_trailing_hyphens(t),
                out@.len() <= 60,
                out@.len() > 0 ==> out@[0] != '-',
                forall|j: int| 0 <= j < out@.len() ==> slug_char_ok(#[trigger] out@[j]),
            decreases out.len(),
        {
            let ghost before = out@;
            out.pop();
            proof {
                assert(out@ =~= before.drop_last());
            }
        }
        proof {
            assert(trim_trailing_hyphens(out@) == out@);
        }
    }

    if out.len() == 0 {
        let r = String::from_str("project");
        proof {
            reveal_strlit("project");
            assert(r@ =~= default_slug());
            lemma_default_slug_valid();
        }
        r
    } else {
        let r = chars_to_string(&out);
        r
    }
}

/// The fallback slug is itself well-formed.
proof fn lemma_default_slug_valid()
    ensures
        spec_valid_slug(default_slug()),
{
    let d = default_slug();
    assert(d.len() == 7);
    assert(d[0] == 'p' && d[1] == 'r' && d[2] == 'o' && d[3] == 'j' && d[4] == 'e' && d[5] == 'c'
        && d[6] == 't');
    assert forall|i: int| 0 <= i < d.len() implies slug_char_ok(#[trigger] d[i]) by {
        if i == 0 {
            assert(is_ascii_lower('p'));
        } else if i == 1 {
            assert(is_ascii_lower('r'));
        } else if i == 2 {
            assert(is_ascii_lower('o'));
        } else if i == 3 {
            assert(is_ascii_lower('j'));
        } else if i == 4 {
            assert(is_ascii_lower('e'));
        } else if i == 5 {
            assert(is_ascii_lower('c'));
        } else {
            assert(is_ascii_lower('t'));
        }
    }
}

fn contains_string(existing: &Vec<String>, s: &String) -> (r: bool)
    ensures
        r == spec_contains(existing@, s@),
{
    crate::text::contains_string(existing, s)
}

/// Two candidates with different suffix numbers differ as strings.
proof fn lemma_candidate_injective(base: Seq<char>, j: nat, k: nat)
    requires
        candidate_seq(base, j) == candidate_seq(base, k),
    ensures
        j == k,
{
    let p = base + seq!['-'];
    assert(dec_digits(j) =~= candidate_seq(base, j).subrange(
        p.len() as int,
        candidate_seq(base, j).len() as int,
    ));
    assert(dec_digits(k) =~= candidate_seq(base, k).subrange(
        p.len() as int,
        candidate_seq(base, k).len() as int,
    ));
    lemma_dec_digits_injective(j, k);
}

/// Pigeonhole: among the candidates numbered 2 through `n + 2` at
/// least one is free of the `n` existing slugs, since two distinct
/// candidates never read the same and so cannot collide with the same
/// slug.
proof fn lemma_some_candidate_free(existing: Seq<String>, base: Seq<char>)
    ensures
        exists|k: nat|
            2 <= k <= existing.len() + 2 && !spec_contains(
                existing,
                #[trigger] candidate_seq(base, k),
            ),
{
    if !(exists|k: nat|
        2 <= k <= existing.len() + 2 && !spec_contains(
            existing,
            #[trigger] candidate_seq(base, k),
        )) {
        assert(forall|j: nat|
            2 <= j <= existing.len() + 2 ==> spec_contains(
                existing,
                #[trigger] candidate_seq(base, j),
            ));
        let n = existing.len() as int;
        let cand = |j: int| candidate_seq(base, j as nat);
        let views = |i: int| existing[i]@;
        let cand_dom = set_int_range(2, n + 3);
        let slug_dom = set_int_range(0, n);
        lemma_int_range(2, n + 3);
        lemma_int_range(0, n);
        let cands = cand_dom.map(cand);
        let slugs = slug_dom.map(views);
        assert(vstd::relations::injective_on(cand, cand_dom)) by {
            assert forall|x: int, y: int|
                cand_dom.contains(x) && cand_dom.contains(y) && cand(x) == cand(
                    y,
                ) implies x == y by {
                lemma_candidate_injective(base, x as nat, y as nat);
            }
        }
        lemma_map_size(cand_dom, cands, cand);
        vstd::set_lib::lemma_map_size_bound(slug_dom, slugs, views);
        assert(cands.subset_of(slugs)) by {
            assert forall|t: Seq<char>| cands.contains(t) implies slugs.contains(t) by {
                let j = choose|j: int| cand_dom.contains(j) && cand(j) == t;
                assert(spec_contains(existing, candidate_seq(base, j as nat)));
                let i = choose|i: int| 0 <= i < existing.len() && existing[i]@ == t;
                assert(slug_dom.contains(i) && views(i) == t);
            }
        }
        lemma_len_subset(cands, slugs);
    }
}

/// Append `-2`, `-3`, ... to `base` until the result is not among the
/// existing slugs; `base` itself is kept when it is already free.
pub fn make_unique(base: String, existing: &Vec<String>) -> (r: String)
    requires
        existing@.len() + 3 <= u64::MAX,
    ensures
        !spec_contains(existing@, r@),
        !spec_contains(existing@, base@) ==> r@ == base@,
        spec_contains(existing@, base@) ==> exists|k: nat|
            #[trigger] is_first_free(existing@, base@, k) && r@ == candidate_seq(base@, k),
{
    if !contains_string(existing, &base) {
        return base;
    }
    let mut counter: u64 = 2;
    loop
        invariant
            existing@.len() + 3 <= u64::MAX,
            2 <= counter <= existing@.len() + 2,
            spec_contains(existing@, base@),
            forall|j: nat|
                2 <= j < counter ==> spec_contains(existing@, #[trigger] candidate_seq(base@, j)),
        decreases existing@.len() + 2 - counter,
    {
        let digits = u64_to_dec_string(counter);
        let mut candidate = base.clone();
        candidate.append("-");
        candidate.append(digits.as_str());
        proof {
            reveal_strlit("-");
            assert(candidate@ =~= candidate_seq(base@, counter as nat));
        }
        if !contains_string(existing, &candidate) {
            proof {
                assert(is_first_free(existing@, base@, counter as nat));
            }
            return candidate;
        }
        proof {
            if counter == existing@.len() + 2 {
                assert forall|j: nat| 2 <= j <= existing@.len() + 2 implies spec_contains(
                    existing@,
                    #[trigger] candidate_seq(base@, j),
                ) by {
                    if j < counter as nat {
                    } else {
                        assert(j == counter as nat);
                    }
                }
                lemma_some_candidate_free(existing@, base@);
            }
        }
        counter = counter + 1;
    }
}

/// Generate a slug for `name` that is well-formed and unique among
/// `existing`.
pub fn generate_slug(name: &str, existing: &Vec<String>) -> (r: String)
    requires
        existing@.len() + 3 <= u64::MAX,
    ensures
        !spec_contains(existing@, r@),
        !spec_contains(existing@, spec_slugify(name@)) ==> r@ == spec_slugify(name@)
            && spec_valid_slug(r@),
        spec_contains(existing@, spec_slugify(name@)) ==> exists|k: nat|
            #[trigger] is_first_free(existing@, spec_slugify(name@), k) && r@ == candidate_seq(
            spec_slugify(name@),
            k,
        ),
{
    let base = slugify(name);
    make_unique(base, existing)
}

} // verus!

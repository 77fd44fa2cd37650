//! Pair detection: files sharing a directory and a case-folded stem
//! form one logical group. Exactly one raster file plus exactly one
//! raw file at a key become a pair; any other constellation falls
//! apart into singletons, because a wrongly guessed pair merges two
//! distinct photos and is far worse than a missed one.

use vstd::prelude::*;
use crate::model::{PhotoFormat, ScannedFile};

verus! {

/// The predicate picking the files at pairing key `(d, b)`.
pub open spec fn key_pred(d: Seq<char>, b: Seq<char>) -> spec_fn(ScannedFile) -> bool {
    |x: ScannedFile| x.dir@ == d && x.base_name@ == b
}

/// The predicate picking the files at key `(d, b)` with format `fmt`.
pub open spec fn key_fmt_pred(d: Seq<char>, b: Seq<char>, fmt: PhotoFormat) -> spec_fn(
    ScannedFile,
) -> bool {
    |x: ScannedFile| x.dir@ == d && x.base_name@ == b && x.format == fmt
}

/// How many files sit at key `(d, b)`.
pub open spec fn key_count(s: Seq<ScannedFile>, d: Seq<char>, b: Seq<char>) -> int {
    s.filter(key_pred(d, b)).len() as int
}

/// How many files of format `fmt` sit at key `(d, b)`.
pub open spec fn key_count_fmt(
    s: Seq<ScannedFile>,
    d: Seq<char>,
    b: Seq<char>,
    fmt: PhotoFormat,
) -> int {
    s.filter(key_fmt_pred(d, b, fmt)).len() as int
}

/// A key is pairable when exactly two files share it, one raster
/// preview and one raw file.
pub open spec fn pairable(s: Seq<ScannedFile>, d: Seq<char>, b: Seq<char>) -> bool {
    &&& key_count(s, d, b) == 2
    &&& key_count_fmt(s, d, b, PhotoFormat::Jpeg) == 1
    &&& key_count_fmt(s, d, b, PhotoFormat::Raw) == 1
}

/// The unique raw file at a pairable key.
pub open spec fn raw_at_key(s: Seq<ScannedFile>, d: Seq<char>, b: Seq<char>) -> ScannedFile {
    s.filter(key_fmt_pred(d, b, PhotoFormat::Raw))[0]
}

/// One logical photo: up to two files sharing a pairing key.
#[derive(Debug, Clone)]
pub struct LogicalGroup {
    pub jpeg: Option<ScannedFile>,
    pub raw: Option<ScannedFile>,
    /// true iff both a raster and a raw member are present
    pub is_pair: bool,
}

impl LogicalGroup {
    /// The member that stands in for the group: the raster preview
    /// when present, else the raw file.
    pub open spec fn spec_representative(self) -> ScannedFile {
        if self.jpeg is Some {
            self.jpeg->Some_0
        } else {
            self.raw->Some_0
        }
    }

    pub open spec fn spec_members(self) -> Seq<ScannedFile> {
        match (self.jpeg, self.raw) {
            (Some(j), Some(r)) => seq![j, r],
            (Some(j), None) => seq![j],
            (None, Some(r)) => seq![r],
            (None, None) => Seq::empty(),
        }
    }

    pub open spec fn key_dir(self) -> Seq<char> {
        self.spec_representative().dir@
    }

    pub open spec fn key_base(self) -> Seq<char> {
        self.spec_representative().base_name@
    }

    /// Well-formed: one or two members, the flag meaning exactly
    /// "both present", each member in its matching slot, and both
    /// members of a pair sharing the key.
    pub open spec fn wf(self) -> bool {
        &&& (self.jpeg is Some || self.raw is Some)
        &&& (self.is_pair <==> (self.jpeg is Some && self.raw is Some))
        &&& (self.jpeg is Some ==> self.jpeg->Some_0.format == PhotoFormat::Jpeg)
        &&& (self.raw is Some ==> self.raw->Some_0.format == PhotoFormat::Raw)
        &&& (self.is_pair ==> self.jpeg->Some_0.dir@ == self.raw->Some_0.dir@
            && self.jpeg->Some_0.base_name@ == self.raw->Some_0.base_name@)
    }

    /// The representative file: the raster preview when present, the
    /// raw file otherwise.
    pub fn representative(&self) -> (r: &ScannedFile)
        requires
            self.jpeg is Some || self.raw is Some,
        ensures
            *r == self.spec_representative(),
    {
        match &self.jpeg {
            Some(j) => j,
            None => {
                match &self.raw {
                    Some(r) => r,
                    None => vstd::pervasive::unreached(),
                }
            },
        }
    }

    /// A copy equal to the original in every field.
    pub fn duplicate(&self) -> (r: LogicalGroup)
        ensures
            r == *self,
    {
        let jpeg = match &self.jpeg {
            Some(f) => Some(f.duplicate()),
            None => None,
        };
        let raw = match &self.raw {
            Some(f) => Some(f.duplicate()),
            None => None,
        };
        LogicalGroup { jpeg, raw, is_pair: self.is_pair }
    }

    /// The capture time used for burst grouping.
    pub fn capture_time(&self) -> (r: Option<i64>)
        requires
            self.jpeg is Some || self.raw is Some,
        ensures
            r == self.spec_representative().capture_time,
    {
        self.representative().capture_time
    }
}

/// The singleton group a lone file becomes.
pub open spec fn spec_single_group(f: ScannedFile) -> LogicalGroup {
    if f.format == PhotoFormat::Jpeg {
        LogicalGroup { jpeg: Some(f), raw: None, is_pair: false }
    } else {
        LogicalGroup { jpeg: None, raw: Some(f), is_pair: false }
    }
}

/// The pair group of a raster file and its raw sibling.
pub open spec fn spec_pair_group(j: ScannedFile, r: ScannedFile) -> LogicalGroup {
    LogicalGroup { jpeg: Some(j), raw: Some(r), is_pair: true }
}

/// The groups emitted for positions `i` onward: a pairable key's pair
/// is emitted at its raster member's position (its raw member's
/// position emits nothing); every other file becomes a singleton at
/// its own position.
pub open spec fn spec_groups_from(s: Seq<ScannedFile>, i: int) -> Seq<LogicalGroup>
    decreases s.len() - i,
{
    if i < 0 || i >= s.len() {
        Seq::empty()
    } else {
        let f = s[i];
        let rest = spec_groups_from(s, i + 1);
        if pairable(s, f.dir@, f.base_name@) {
            if f.format == PhotoFormat::Jpeg {
                seq![spec_pair_group(f, raw_at_key(s, f.dir@, f.base_name@))] + rest
            } else {
                rest
            }
        } else {
            seq![spec_single_group(f)] + rest
        }
    }
}

/// What pair detection yields.
pub open spec fn spec_detect_pairs(s: Seq<ScannedFile>) -> Seq<LogicalGroup> {
    spec_groups_from(s, 0)
}

/// The predicate picking the pair groups.
pub open spec fn pair_pred() -> spec_fn(LogicalGroup) -> bool {
    |g: LogicalGroup| g.is_pair
}

/// The group emitted at position `p`, when one is emitted there,
/// appears among the groups emitted from any earlier position on.
proof fn lemma_emission_visible(s: Seq<ScannedFile>, i: int, p: int)
    requires
        0 <= i <= p < s.len(),
    ensures
        (pairable(s, s[p].dir@, s[p].base_name@) && s[p].format == PhotoFormat::Jpeg)
            ==> spec_groups_from(s, i).contains(
            spec_pair_group(s[p], raw_at_key(s, s[p].dir@, s[p].base_name@)),
        ),
        !pairable(s, s[p].dir@, s[p].base_name@) ==> spec_groups_from(s, i).contains(
            spec_single_group(s[p]),
        ),
    decreases p - i,
{
    if i == p {
        let f = s[p];
        if pairable(s, f.dir@, f.base_name@) && f.format == PhotoFormat::Jpeg {
            let g = spec_pair_group(f, raw_at_key(s, f.dir@, f.base_name@));
            assert(spec_groups_from(s, i)[0] == g);
        } else if !pairable(s, f.dir@, f.base_name@) {
            assert(spec_groups_from(s, i)[0] == spec_single_group(f));
        }
    } else {
        lemma_emission_visible(s, i + 1, p);
        let rest = spec_groups_from(s, i + 1);
        let gs = spec_groups_from(s, i);
        let f = s[i];
        assert forall|x: LogicalGroup| rest.contains(x) implies gs.contains(x) by {
            let k = choose|k: int| 0 <= k < rest.len() && rest[k] == x;
            if pairable(s, f.dir@, f.base_name@) {
                if f.format == PhotoFormat::Jpeg {
                    assert(gs[k + 1] == rest[k]);
                } else {
                    assert(gs[k] == rest[k]);
                }
            } else {
                assert(gs[k + 1] == rest[k]);
            }
        }
    }
}

/// Law (nothing lost): every input file is a member of some emitted
/// group — a singleton of its own, or the pair at its key.
pub proof fn lemma_every_file_grouped(s: Seq<ScannedFile>, j: int)
    requires
        0 <= j < s.len(),
    ensures
        exists|k: int|
            0 <= k < spec_detect_pairs(s).len() && (
            #[trigger] spec_detect_pairs(s)[k]).spec_members().contains(s[j]),
{
    let d = s[j].dir@;
    let b = s[j].base_name@;
    let gs = spec_detect_pairs(s);
    if !pairable(s, d, b) {
        lemma_emission_visible(s, 0, j);
        let g = spec_single_group(s[j]);
        let k = choose|k: int| 0 <= k < gs.len() && gs[k] == g;
        assert(g.spec_members()[0] == s[j]);
        assert(gs[k].spec_members().contains(s[j]));
    } else if s[j].format == PhotoFormat::Jpeg {
        lemma_emission_visible(s, 0, j);
        let g = spec_pair_group(s[j], raw_at_key(s, d, b));
        let k = choose|k: int| 0 <= k < gs.len() && gs[k] == g;
        assert(g.spec_members()[0] == s[j]);
        assert(gs[k].spec_members().contains(s[j]));
    } else {
        assert(s[j].format == PhotoFormat::Raw);
        let rp = key_fmt_pred(d, b, PhotoFormat::Raw);
        assert(rp(s[j]));
        lemma_unique_filter_elem(s, rp, j);
        assert(s[j] == raw_at_key(s, d, b));
        let jp = key_fmt_pred(d, b, PhotoFormat::Jpeg);
        lemma_filter_nonempty_exists(s, jp);
        let j2 = choose|j2: int| 0 <= j2 < s.len() && jp(#[trigger] s[j2]);
        assert(s[j2].dir@ == d && s[j2].base_name@ == b && s[j2].format == PhotoFormat::Jpeg);
        lemma_emission_visible(s, 0, j2);
        let g = spec_pair_group(s[j2], raw_at_key(s, d, b));
        assert(spec_pair_group(s[j2], raw_at_key(s, s[j2].dir@, s[j2].base_name@)) == g);
        let k = choose|k: int| 0 <= k < gs.len() && gs[k] == g;
        assert(g.spec_members()[1] == s[j]);
        assert(gs[k].spec_members().contains(s[j]));
    }
}

/// At most one group is emitted per input position.
pub proof fn lemma_groups_len_bound(s: Seq<ScannedFile>, i: int)
    requires
        0 <= i <= s.len(),
    ensures
        spec_groups_from(s, i).len() <= s.len() - i,
    decreases s.len() - i,
{
    if i < s.len() {
        lemma_groups_len_bound(s, i + 1);
    }
}

/// When exactly one element satisfies `pred`, any index satisfying it
/// holds that element.
proof fn lemma_unique_filter_elem<A>(s: Seq<A>, pred: spec_fn(A) -> bool, j: int)
    requires
        s.filter(pred).len() == 1,
        0 <= j < s.len(),
        pred(s[j]),
    ensures
        s[j] == s.filter(pred)[0],
{
    s.lemma_filter_contains(pred, j);
    assert(s.filter(pred).contains(s[j]));
    let k = choose|k: int| 0 <= k < s.filter(pred).len() && s.filter(pred)[k] == s[j];
    assert(k == 0);
}

/// A non-empty filter means some index satisfies the predicate.
proof fn lemma_filter_nonempty_exists<A>(s: Seq<A>, pred: spec_fn(A) -> bool)
    requires
        s.filter(pred).len() > 0,
    ensures
        exists|j: int| 0 <= j < s.len() && pred(#[trigger] s[j]),
    decreases s.len(),
{
    reveal(Seq::filter);
    if s.len() > 0 {
        if pred(s.last()) {
            assert(pred(s[s.len() - 1]));
        } else {
            lemma_filter_nonempty_exists(s.drop_last(), pred);
            let j = choose|j: int| 0 <= j < s.drop_last().len() && pred(#[trigger] s.drop_last()[j]);
            assert(pred(s[j]));
        }
    }
}

/// The predicate picking the groups whose key is `(d, b)`.
pub open spec fn group_key_pred(d: Seq<char>, b: Seq<char>) -> spec_fn(LogicalGroup) -> bool {
    |g: LogicalGroup| g.key_dir() == d && g.key_base() == b
}

/// The groups of `gs` sitting at key `(d, b)`.
pub open spec fn groups_at_key(gs: Seq<LogicalGroup>, d: Seq<char>, b: Seq<char>) -> Seq<
    LogicalGroup,
> {
    gs.filter(group_key_pred(d, b))
}

/// Every group emitted from position `i` on is well-formed, is a pair
/// exactly when its key is pairable in the whole input, and holds
/// only members drawn from the input.
pub proof fn lemma_groups_from_sound(s: Seq<ScannedFile>, i: int)
    ensures
        forall|k: int|
            0 <= k < spec_groups_from(s, i).len() ==> (#[trigger] spec_groups_from(s, i)[k]).wf(),
        forall|k: int|
            0 <= k < spec_groups_from(s, i).len() ==> ((#[trigger] spec_groups_from(s, i)[k]).is_pair
                <==> pairable(
                s,
                spec_groups_from(s, i)[k].key_dir(),
                spec_groups_from(s, i)[k].key_base(),
            )),
        forall|k: int, m: int|
            0 <= k < spec_groups_from(s, i).len() && 0 <= m < (#[trigger] spec_groups_from(s, i)[k]).spec_members().len()
                ==> s.contains(#[trigger] spec_groups_from(s, i)[k].spec_members()[m]),
    decreases s.len() - i,
{
    if i < 0 || i >= s.len() {
    } else {
        lemma_groups_from_sound(s, i + 1);
        let f = s[i];
        let d = f.dir@;
        let b = f.base_name@;
        let rest = spec_groups_from(s, i + 1);
        if pairable(s, d, b) && f.format == PhotoFormat::Jpeg {
            let rp = key_fmt_pred(d, b, PhotoFormat::Raw);
            let raw = raw_at_key(s, d, b);
            s.lemma_filter_pred(rp, 0);
            assert(rp(s.filter(rp)[0]));
            lemma_filter_nonempty_exists(s, rp);
            let j = choose|j: int| 0 <= j < s.len() && rp(#[trigger] s[j]);
            lemma_unique_filter_elem(s, rp, j);
            assert(s.contains(raw));
            let g = spec_pair_group(f, raw);
            assert(g.wf());
            assert(s.contains(f));
            let gs = spec_groups_from(s, i);
            assert(gs == seq![g] + rest);
            assert forall|k: int| 0 <= k < gs.len() implies (#[trigger] gs[k]).wf() && (gs[k].is_pair
                <==> pairable(s, gs[k].key_dir(), gs[k].key_base())) by {
                if k == 0 {
                    assert(gs[k] == g);
                } else {
                    assert(gs[k] == rest[k - 1]);
                }
            }
            assert forall|k: int, m: int|
                0 <= k < gs.len() && 0 <= m < (#[trigger] gs[k]).spec_members().len() implies s.contains(
                #[trigger] gs[k].spec_members()[m],
            ) by {
                if k == 0 {
                    assert(gs[k] == g);
                    assert(g.spec_members() == seq![f, raw]);
                    if m == 0 {
                        assert(g.spec_members()[0] == f);
                    } else {
                        assert(g.spec_members()[1] == raw);
                    }
                } else {
                    assert(gs[k] == rest[k - 1]);
                }
            }
        } else if pairable(s, d, b) {
        } else {
            let g = spec_single_group(f);
            assert(g.wf());
            assert(s.contains(f));
            let gs = spec_groups_from(s, i);
            assert(gs == seq![g] + rest);
            assert forall|k: int| 0 <= k < gs.len() implies (#[trigger] gs[k]).wf() && (gs[k].is_pair
                <==> pairable(s, gs[k].key_dir(), gs[k].key_base())) by {
                if k == 0 {
                    assert(gs[k] == g);
                    assert(g.key_dir() == d && g.key_base() == b);
                } else {
                    assert(gs[k] == rest[k - 1]);
                }
            }
            assert forall|k: int, m: int|
                0 <= k < gs.len() && 0 <= m < (#[trigger] gs[k]).spec_members().len() implies s.contains(
                #[trigger] gs[k].spec_members()[m],
            ) by {
                if k == 0 {
                    assert(gs[k] == g);
                    assert(g.spec_members() == seq![f]);
                    assert(g.spec_members()[0] == f);
                } else {
                    assert(gs[k] == rest[k - 1]);
                }
            }
        }
    }
}

/// Counting groups at one key: a pairable key yields one group per
/// raster member of the suffix (so one in all); any other key yields
/// one group per member.
proof fn lemma_groups_at_key_from(s: Seq<ScannedFile>, d: Seq<char>, b: Seq<char>, i: int)
    requires
        0 <= i <= s.len(),
    ensures
        pairable(s, d, b) ==> groups_at_key(spec_groups_from(s, i), d, b).len() == s.subrange(
            i,
            s.len() as int,
        ).filter(key_fmt_pred(d, b, PhotoFormat::Jpeg)).len(),
        !pairable(s, d, b) ==> groups_at_key(spec_groups_from(s, i), d, b).len() == s.subrange(
            i,
            s.len() as int,
        ).filter(key_pred(d, b)).len(),
    decreases s.len() - i,
{
    let n = s.len() as int;
    if i == n {
        assert(s.subrange(n, n) =~= Seq::<ScannedFile>::empty());
        assert(spec_groups_from(s, i) == Seq::<LogicalGroup>::empty());
        reveal(Seq::filter);
    } else {
        lemma_groups_at_key_from(s, d, b, i + 1);
        let f = s[i];
        let rest = spec_groups_from(s, i + 1);
        let suffix = s.subrange(i, n);
        let tail = s.subrange(i + 1, n);
        assert(suffix =~= seq![f] + tail);
        Seq::filter_distributes_over_add(seq![f], tail, key_fmt_pred(d, b, PhotoFormat::Jpeg));
        Seq::filter_distributes_over_add(seq![f], tail, key_pred(d, b));
        proof_singleton_filter(f, key_fmt_pred(d, b, PhotoFormat::Jpeg));
        proof_singleton_filter(f, key_pred(d, b));
        if pairable(s, f.dir@, f.base_name@) && f.format == PhotoFormat::Jpeg {
            let g = spec_pair_group(f, raw_at_key(s, f.dir@, f.base_name@));
            assert(spec_groups_from(s, i) == seq![g] + rest);
            Seq::filter_distributes_over_add(seq![g], rest, group_key_pred(d, b));
            proof_singleton_filter_group(g, group_key_pred(d, b));
            assert(g.key_dir() == f.dir@ && g.key_base() == f.base_name@);
        } else if pairable(s, f.dir@, f.base_name@) {
            assert(spec_groups_from(s, i) == rest);
            if f.dir@ == d && f.base_name@ == b {
                assert(f.format == PhotoFormat::Raw);
            }
        } else {
            let g = spec_single_group(f);
            assert(spec_groups_from(s, i) == seq![g] + rest);
            Seq::filter_distributes_over_add(seq![g], rest, group_key_pred(d, b));
            proof_singleton_filter_group(g, group_key_pred(d, b));
            assert(g.key_dir() == f.dir@ && g.key_base() == f.base_name@);
            if f.dir@ == d && f.base_name@ == b {
                assert(!pairable(s, d, b));
            }
        }
    }
}

proof fn proof_singleton_filter(f: ScannedFile, p: spec_fn(ScannedFile) -> bool)
    ensures
        seq![f].filter(p) == if p(f) {
            seq![f]
        } else {
            Seq::<ScannedFile>::empty()
        },
{
    reveal(Seq::filter);
    assert(seq![f].drop_last() =~= Seq::<ScannedFile>::empty());
    assert(seq![f].last() == f);
    assert(Seq::<ScannedFile>::empty().filter(p) =~= Seq::<ScannedFile>::empty());
    if p(f) {
        assert(seq![f].filter(p) =~= seq![f]);
    } else {
        assert(seq![f].filter(p) =~= Seq::<ScannedFile>::empty());
    }
}

proof fn proof_singleton_filter_group(g: LogicalGroup, p: spec_fn(LogicalGroup) -> bool)
    ensures
        seq![g].filter(p) == if p(g) {
            seq![g]
        } else {
            Seq::<LogicalGroup>::empty()
        },
{
    reveal(Seq::filter);
    assert(seq![g].drop_last() =~= Seq::<LogicalGroup>::empty());
    assert(seq![g].last() == g);
    assert(Seq::<LogicalGroup>::empty().filter(p) =~= Seq::<LogicalGroup>::empty());
    if p(g) {
        assert(seq![g].filter(p) =~= seq![g]);
    } else {
        assert(seq![g].filter(p) =~= Seq::<LogicalGroup>::empty());
    }
}

/// Law: for every file set, a key holding exactly one raster file and
/// one raw file yields exactly one logical group, a pair with both
/// members present; a key holding any other constellation — a lone
/// file, two files of one format, or three or more files — yields
/// exactly one singleton per file, and none of them is a pair.
pub proof fn lemma_pairing_correctness(s: Seq<ScannedFile>, d: Seq<char>, b: Seq<char>)
    ensures
        pairable(s, d, b) ==> groups_at_key(spec_detect_pairs(s), d, b).len() == 1,
        pairable(s, d, b) ==> {
            let g = groups_at_key(spec_detect_pairs(s), d, b)[0];
            g.is_pair && g.wf() && g.jpeg is Some && g.raw is Some
        },
        !pairable(s, d, b) ==> groups_at_key(spec_detect_pairs(s), d, b).len() == key_count(
            s,
            d,
            b,
        ),
        forall|k: int|
            0 <= k < spec_detect_pairs(s).len() ==> ((#[trigger] spec_detect_pairs(s)[k]).is_pair
                <==> pairable(
                s,
                spec_detect_pairs(s)[k].key_dir(),
                spec_detect_pairs(s)[k].key_base(),
            )),
{
    lemma_groups_from_sound(s, 0);
    lemma_groups_at_key_from(s, d, b, 0);
    assert(s.subrange(0, s.len() as int) =~= s);
    if pairable(s, d, b) {
        let gs = spec_detect_pairs(s);
        let p = group_key_pred(d, b);
        assert(gs.filter(p).len() == 1);
        lemma_filter_nonempty_exists(gs, p);
        let k = choose|k: int| 0 <= k < gs.len() && p(#[trigger] gs[k]);
        lemma_unique_filter_elem(gs, p, k);
        assert(gs[k] == gs.filter(p)[0]);
    }
}

/// Number of files at key `(d, b)` in the prefix of length `i`.
fn count_key(files: &Vec<ScannedFile>, d: &String, b: &String) -> (r: usize)
    ensures
        r == key_count(files@, d@, b@),
{
    broadcast use vstd::seq_lib::group_filter_ensures;

    let n = files.len();
    let mut c: usize = 0;
    let mut i: usize = 0;
    while i < n
        invariant
            i <= n == files@.len(),
            c == key_count(files@.take(i as int), d@, b@),
            c <= i,
        decreases n - i,
    {
        proof {
            files@.take(i as int).lemma_filter_push(files@[i as int], key_pred(d@, b@));
            assert(files@.take(i + 1 as int) =~= files@.take(i as int).push(files@[i as int]));
        }
        if files[i].dir.eq(d) && files[i].base_name.eq(b) {
            c = c + 1;
        }
        i = i + 1;
    }
    proof {
        assert(files@.take(n as int) =~= files@);
    }
    c
}

/// Number of files at key `(d, b)` with format `fmt`.
fn count_key_fmt(files: &Vec<ScannedFile>, d: &String, b: &String, fmt: PhotoFormat) -> (r: usize)
    ensures
        r == key_count_fmt(files@, d@, b@, fmt),
{
    broadcast use vstd::seq_lib::group_filter_ensures;

    let n = files.len();
    let mut c: usize = 0;
    let mut i: usize = 0;
    while i < n
        invariant
            i <= n == files@.len(),
            c == files@.take(i as int).filter(key_fmt_pred(d@, b@, fmt)).len(),
            c <= i,
        decreases n - i,
    {
        proof {
            files@.take(i as int).lemma_filter_push(files@[i as int], key_fmt_pred(d@, b@, fmt));
            assert(files@.take(i + 1 as int) =~= files@.take(i as int).push(files@[i as int]));
        }
        if files[i].dir.eq(d) && files[i].base_name.eq(b) && files[i].format == fmt {
            c = c + 1;
        }
        i = i + 1;
    }
    proof {
        assert(files@.take(n as int) =~= files@);
    }
    c
}

/// The index of the unique raw file at a pairable key.
fn find_raw_at_key(files: &Vec<ScannedFile>, d: &String, b: &String) -> (r: Option<usize>)
    requires
        key_count_fmt(files@, d@, b@, PhotoFormat::Raw) == 1,
    ensures
        match r {
            Some(j) => j < files@.len() && files@[j as int] == raw_at_key(files@, d@, b@),
            None => false,
        },
{
    broadcast use vstd::seq_lib::group_filter_ensures;

    let n = files.len();
    let mut i: usize = 0;
    while i < n
        invariant
            i <= n == files@.len(),
            key_count_fmt(files@, d@, b@, PhotoFormat::Raw) == 1,
            forall|j: int| 0 <= j < i ==> !(key_fmt_pred(d@, b@, PhotoFormat::Raw)(
                #[trigger] files@[j],
            )),
        decreases n - i,
    {
        if files[i].dir.eq(d) && files[i].base_name.eq(b) && files[i].format == PhotoFormat::Raw {
            proof {
                lemma_unique_filter_elem(
                    files@,
                    key_fmt_pred(d@, b@, PhotoFormat::Raw),
                    i as int,
                );
            }
            return Some(i);
        }
        i = i + 1;
    }
    proof {
        lemma_filter_nonempty_exists(files@, key_fmt_pred(d@, b@, PhotoFormat::Raw));
    }
    None
}

/// Group scanned files into logical groups by their pairing key.
pub fn detect_pairs(files: Vec<ScannedFile>) -> (r: Vec<LogicalGroup>)
    ensures
        r@ == spec_detect_pairs(files@),
{
    let n = files.len();
    let mut out: Vec<LogicalGroup> = Vec::new();
    let mut i: usize = 0;
    while i < n
        invariant
            i <= n == files@.len(),
            out@ + spec_groups_from(files@, i as int) == spec_detect_pairs(files@),
        decreases n - i,
    {
        let ghost out0 = out@;
        let ghost rest = spec_groups_from(files@, i as int);
        let d = files[i].dir.clone();
        let b = files[i].base_name.clone();
        let total = count_key(&files, &d, &b);
        let jpegs = count_key_fmt(&files, &d, &b, PhotoFormat::Jpeg);
        let raws = count_key_fmt(&files, &d, &b, PhotoFormat::Raw);
        if total == 2 && jpegs == 1 && raws == 1 {
            if files[i].format == PhotoFormat::Jpeg {
                let j = match find_raw_at_key(&files, &d, &b) {
                    Some(j) => j,
                    None => vstd::pervasive::unreached(),
                };
                let g = LogicalGroup {
                    jpeg: Some(files[i].duplicate()),
                    raw: Some(files[j].duplicate()),
                    is_pair: true,
                };
                proof {
                    assert(g == spec_pair_group(
                        files@[i as int],
                        raw_at_key(files@, files@[i as int].dir@, files@[i as int].base_name@),
                    ));
                    assert(rest == seq![g] + spec_groups_from(files@, i + 1));
                    assert(out0 + rest =~= out0.push(g) + spec_groups_from(files@, i + 1));
                }
                out.push(g);
            } else {
                proof {
                    assert(rest == spec_groups_from(files@, i + 1));
                }
            }
        } else {
            let f = files[i].duplicate();
            let g = if files[i].format == PhotoFormat::Jpeg {
                LogicalGroup { jpeg: Some(f), raw: None, is_pair: false }
            } else {
                LogicalGroup { jpeg: None, raw: Some(f), is_pair: false }
            };
            proof {
                assert(!pairable(files@, files@[i as int].dir@, files@[i as int].base_name@));
                assert(g == spec_single_group(files@[i as int]));
                assert(rest == seq![g] + spec_groups_from(files@, i + 1));
                assert(out0 + rest =~= out0.push(g) + spec_groups_from(files@, i + 1));
            }
            out.push(g);
        }
        i = i + 1;
    }
    proof {
        assert(out@ + spec_groups_from(files@, n as int) =~= out@);
    }
    out
}

} // verus!

//! Fuzzy ranking of indexed entries against a query.

use vstd::prelude::*;
use fuzzy_matcher::skim::SkimMatcherV2;
use fuzzy_matcher::FuzzyMatcher;
use crate::config::Engine;
use crate::entry::{EntryView, FileEntry, FileEntryType};
use crate::result::{results_view, LauncherResult, ResultView};

verus! {

/// What the subsequence matcher returns for a choice and a pattern: its
/// score and the matched character positions, or nothing where the pattern
/// is no subsequence of the choice.
pub uninterp spec fn skim_indices(choice: Seq<char>, pattern: Seq<char>) -> Option<
    (i64, Seq<usize>),
>;

/// Relies on fuzzy_matcher's `SkimMatcherV2` with its default settings and
/// its `fuzzy_indices`: the result depends on the two strings alone.
#[verifier::external_body]
fn skim_match(choice: &str, pattern: &str) -> (r: Option<(i64, Vec<usize>)>)
    ensures
        match r {
            Some(m) => skim_indices(choice@, pattern@) == Some((m.0, m.1@)),
            None => skim_indices(choice@, pattern@) is None,
        },
{
    SkimMatcherV2::default().fuzzy_indices(choice, pattern)
}

/// A matched entry with its ranking key.
#[derive(Debug, Clone, Copy, PartialEq, Eq, Structural)]
pub struct Scored {
    pub score: i64,
    pub coverage: u128,
    /// Position of the entry in the index.
    pub index: usize,
}

/// What the token-alignment matcher found in one entry name: the score
/// scaled to an integer (lower is better) and the matched ranges.
#[derive(Debug)]
pub struct FuseHit {
    pub score: i64,
    pub ranges: Vec<(usize, usize)>,
}

pub open spec fn hit_view(h: Option<FuseHit>) -> Option<(i64, Seq<(usize, usize)>)> {
    match h {
        Some(x) => Some((x.score, x.ranges@)),
        None => None,
    }
}

/// `a` ranks strictly before `b`: by score, then by coverage, both higher
/// first when `desc` holds and lower first otherwise.
pub open spec fn better(a: Scored, b: Scored, desc: bool) -> bool {
    if desc {
        a.score > b.score || (a.score == b.score && a.coverage > b.coverage)
    } else {
        a.score < b.score || (a.score == b.score && a.coverage < b.coverage)
    }
}

/// No element ranks strictly before one that precedes it.
pub open spec fn sorted_by_rank(r: Seq<Scored>, desc: bool) -> bool {
    forall|i: int, j: int| 0 <= i < j < r.len() ==> !better(#[trigger] r[j], #[trigger] r[i], desc)
}

/// `r` holds the candidates, each once, in rank order.
pub open spec fn is_ranking(cands: Seq<Scored>, r: Seq<Scored>, desc: bool) -> bool {
    r.to_multiset() == cands.to_multiset() && sorted_by_rank(r, desc)
}

/// Share of a name of `len` characters that `matched` positions touch, out of 1024.
pub open spec fn skim_coverage(matched: nat, len: nat) -> u128 {
    if len == 0 {
        0
    } else {
        ((matched * 1024) / len) as u128
    }
}

/// Share of a name of `len` characters left uncovered by `covered`, out of 512.
pub open spec fn fuse_coverage(covered: int, len: int) -> u128 {
    if len <= 0 || covered >= len {
        0
    } else {
        (((len - covered) * 512) / len) as u128
    }
}

pub open spec fn range_len(r: (usize, usize)) -> int {
    if r.1 > r.0 {
        r.1 - r.0
    } else {
        0
    }
}

/// Characters that a list of ranges covers, counted once per range.
pub open spec fn ranges_len(rs: Seq<(usize, usize)>) -> int
    decreases rs.len(),
{
    if rs.len() == 0 {
        0
    } else {
        ranges_len(rs.drop_last()) + range_len(rs.last())
    }
}

/// Entries among the first `n` that the subsequence matcher matches, with their keys.
pub open spec fn skim_candidates(es: Seq<EntryView>, q: Seq<char>, n: int) -> Seq<Scored>
    decreases n,
{
    if n <= 0 {
        Seq::empty()
    } else {
        let prev = skim_candidates(es, q, n - 1);
        match skim_indices(es[n - 1].name, q) {
            Some(m) => prev.push(
                Scored {
                    score: m.0,
                    coverage: skim_coverage(m.1.len(), es[n - 1].name.len()),
                    index: (n - 1) as usize,
                },
            ),
            None => prev,
        }
    }
}

/// Entries among the first `n`, with names at least as long as the query,
/// for which the token-alignment matcher found a hit.
pub open spec fn fuse_candidates(
    es: Seq<EntryView>,
    qlen: int,
    hits: Seq<Option<(i64, Seq<(usize, usize)>)>>,
    n: int,
) -> Seq<Scored>
    decreases n,
{
    if n <= 0 {
        Seq::empty()
    } else {
        let prev = fuse_candidates(es, qlen, hits, n - 1);
        let e = es[n - 1];
        if qlen <= e.name.len() && n - 1 < hits.len() && hits[n - 1] is Some {
            let h = hits[n - 1]->Some_0;
            prev.push(
                Scored {
                    score: h.0,
                    coverage: fuse_coverage(ranges_len(h.1), e.name.len() as int),
                    index: (n - 1) as usize,
                },
            )
        } else {
            prev
        }
    }
}

/// The result that launches an entry, after its kind.
pub open spec fn entry_result(e: EntryView) -> ResultView {
    match e.kind {
        FileEntryType::App => ResultView::App(e.path),
        FileEntryType::Bin => ResultView::Bin(e.path),
        FileEntryType::File => ResultView::File(e.path),
    }
}

/// The first `max` ranked entries as results.
pub open spec fn ranked_results(es: Seq<EntryView>, r: Seq<Scored>, max: int) -> Seq<
    ResultView,
> {
    let k = if r.len() < max {
        r.len() as int
    } else {
        max
    };
    r.take(k).map_values(|s: Scored| entry_result(es[s.index as int]))
}

fn better_exec(a: &Scored, b: &Scored, desc: bool) -> (r: bool)
    ensures
        r == better(*a, *b, desc),
{
    if desc {
        a.score > b.score || (a.score == b.score && a.coverage > b.coverage)
    } else {
        a.score < b.score || (a.score == b.score && a.coverage < b.coverage)
    }
}

/// Orders the candidates by rank; equal keys keep their order.
pub fn rank_sort(cands: &Vec<Scored>, desc: bool) -> (r: Vec<Scored>)
    ensures
        is_ranking(cands@, r@, desc),
{
    let mut out: Vec<Scored> = Vec::new();
    let mut i: usize = 0;
    assert(out@ =~= cands@.take(0));
    while i < cands.len()
        invariant
            i <= cands@.len(),
            out@.to_multiset() == cands@.take(i as int).to_multiset(),
            sorted_by_rank(out@, desc),
        decreases cands@.len() - i,
    {
        let c = cands[i];
        let mut j: usize = 0;
        while j < out.len() && !better_exec(&c, &out[j], desc)
            invariant
                j <= out@.len(),
                forall|k: int| 0 <= k < j ==> !better(c, #[trigger] out@[k], desc),
            decreases out@.len() - j,
        {
            j = j + 1;
        }
        let ghost before = out@;
        out.insert(j, c);
        proof {
            before.insert_ensures(j as int, c);
            vstd::seq_lib::to_multiset_insert(before, j as int, c);
            assert(cands@.take(i as int + 1) =~= cands@.take(i as int).push(c));
            vstd::seq_lib::to_multiset_build(cands@.take(i as int), c);
            assert forall|a: int, b: int| 0 <= a < b < out@.len() implies !better(
                #[trigger] out@[b],
                #[trigger] out@[a],
                desc,
            ) by {
                if b < j {
                } else if b == j as int {
                    assert(out@[a] == before[a]);
                } else if a < j {
                    assert(out@[b] == before[b - 1]);
                } else if a == j as int {
                    assert(out@[b] == before[b - 1]);
                    assert(better(c, before[j as int], desc));
                    if j < b - 1 {
                        assert(!better(before[b - 1], before[j as int], desc));
                    }
                } else {
                    assert(out@[a] == before[a - 1]);
                    assert(out@[b] == before[b - 1]);
                }
            }
        }
        i = i + 1;
    }
    proof {
        assert(cands@.take(i as int) =~= cands@);
    }
    out
}

/// The candidate that a subsequence match `m` of the name at `index`, of
/// `name_len` characters, makes: its score, and the share of the name that
/// the matched positions cover.
pub fn skim_candidate(m: &Option<(i64, Vec<usize>)>, name_len: usize, index: usize) -> (r: Option<
    Scored,
>)
    ensures
        match m {
            Some(x) => r == Some(
                Scored {
                    score: x.0,
                    coverage: skim_coverage(x.1@.len(), name_len as nat),
                    index,
                },
            ),
            None => r is None,
        },
{
    match m {
        Some(x) => {
            let coverage: u128 = if name_len == 0 {
                0
            } else {
                (x.1.len() as u128 * 1024) / name_len as u128
            };
            Some(Scored { score: x.0, coverage, index })
        },
        None => None,
    }
}

/// Subsequence-matcher candidates of every entry of `entries` for `query`.
pub fn skim_scores(entries: &Vec<FileEntry>, query: &str) -> (r: Vec<Scored>)
    ensures
        r@ == skim_candidates(
            entries@.map_values(|e: FileEntry| e@),
            query@,
            entries@.len() as int,
        ),
{
    let ghost es = entries@.map_values(|e: FileEntry| e@);
    let mut r: Vec<Scored> = Vec::new();
    let mut i: usize = 0;
    while i < entries.len()
        invariant
            es == entries@.map_values(|e: FileEntry| e@),
            i <= entries@.len(),
            r@ == skim_candidates(es, query@, i as int),
        decreases entries@.len() - i,
    {
        let e = &entries[i];
        let m = skim_match(e.name.as_str(), query);
        let len = e.name.as_str().unicode_len();
        match skim_candidate(&m, len, i) {
            Some(s) => r.push(s),
            None => {},
        }
        i = i + 1;
    }
    r
}

fn covered_len(rs: &Vec<(usize, usize)>) -> (r: u128)
    ensures
        r == ranges_len(rs@),
{
    let mut total: u128 = 0;
    let mut i: usize = 0;
    while i < rs.len()
        invariant
            i <= rs@.len(),
            total == ranges_len(rs@.take(i as int)),
            0 <= total <= i * 0xffff_ffff_ffff_ffffu128,
        decreases rs@.len() - i,
    {
        let (a, b) = rs[i];
        proof {
            assert(rs@.take(i as int + 1).drop_last() =~= rs@.take(i as int));
            assert(i * 0xffff_ffff_ffff_ffffu128 + 0xffff_ffff_ffff_ffffu128 == (i + 1)
                * 0xffff_ffff_ffff_ffffu128) by (nonlinear_arith);
            assert(i < 0x1_0000_0000_0000_0000);
            assert((i + 1) * 0xffff_ffff_ffff_ffffu128 <= 0x1_0000_0000_0000_0000 * 0xffff_ffff_ffff_ffffu128) by (nonlinear_arith)
                requires i < 0x1_0000_0000_0000_0000;
        }
        if b > a {
            total = total + (b - a) as u128;
        }
        i = i + 1;
    }
    proof {
        assert(rs@.take(i as int) =~= rs@);
    }
    total
}

/// Token-alignment candidates: entries whose name has at least as many
/// characters as the query and for which `hits` holds a hit at their position.
pub fn fuse_scores(entries: &Vec<FileEntry>, query: &str, hits: &Vec<Option<FuseHit>>) -> (r:
    Vec<Scored>)
    ensures
        r@ == fuse_candidates(
            entries@.map_values(|e: FileEntry| e@),
            query@.len() as int,
            hits@.map_values(|h: Option<FuseHit>| hit_view(h)),
            entries@.len() as int,
        ),
{
    let ghost es = entries@.map_values(|e: FileEntry| e@);
    let ghost hs = hits@.map_values(|h: Option<FuseHit>| hit_view(h));
    let qlen = query.unicode_len();
    let mut r: Vec<Scored> = Vec::new();
    let mut i: usize = 0;
    while i < entries.len()
        invariant
            es == entries@.map_values(|e: FileEntry| e@),
            hs == hits@.map_values(|h: Option<FuseHit>| hit_view(h)),
            qlen == query@.len(),
            i <= entries@.len(),
            r@ == fuse_candidates(es, qlen as int, hs, i as int),
        decreases entries@.len() - i,
    {
        let e = &entries[i];
        let len = e.name.as_str().unicode_len();
        if qlen <= len && i < hits.len() {
            match &hits[i] {
                Some(h) => {
                    let covered = covered_len(&h.ranges);
                    let coverage: u128 = if len == 0 || covered >= len as u128 {
                        0
                    } else {
                        ((len as u128 - covered) * 512) / len as u128
                    };
                    r.push(Scored { score: h.score, coverage, index: i });
                },
                None => {},
            }
        }
        i = i + 1;
    }
    r
}

/// Results for the first `max` candidates of `ranked`, in order.
pub fn to_results(entries: &Vec<FileEntry>, ranked: &Vec<Scored>, max: usize) -> (r: Vec<
    LauncherResult,
>)
    requires
        forall|k: int| 0 <= k < ranked@.len() ==> #[trigger] ranked@[k].index < entries@.len(),
    ensures
        results_view(r@) == ranked_results(
            entries@.map_values(|e: FileEntry| e@),
            ranked@,
            max as int,
        ),
{
    let ghost es = entries@.map_values(|e: FileEntry| e@);
    let end = if ranked.len() < max {
        ranked.len()
    } else {
        max
    };
    let mut r: Vec<LauncherResult> = Vec::new();
    let mut i: usize = 0;
    while i < end
        invariant
            end <= ranked@.len(),
            forall|k: int| 0 <= k < ranked@.len() ==> #[trigger] ranked@[k].index < entries@.len(),
            es == entries@.map_values(|e: FileEntry| e@),
            i <= end,
            r@.len() == i,
            forall|k: int| 0 <= k < i ==> #[trigger] r@[k]@ == entry_result(es[ranked@[k].index as int]),
        decreases end - i,
    {
        let e = &entries[ranked[i].index];
        let path = e.full_path.clone();
        let x = match e.file_type {
            FileEntryType::App => LauncherResult::App(path),
            FileEntryType::Bin => LauncherResult::Bin(path),
            FileEntryType::File => LauncherResult::File(path),
        };
        r.push(x);
        i = i + 1;
    }
    assert(results_view(r@) =~= ranked_results(es, ranked@, max as int));
    r
}

/// Candidates of an entry sequence for a query under an algorithm.
pub open spec fn candidates(
    es: Seq<EntryView>,
    q: Seq<char>,
    engine: Engine,
    hits: Seq<Option<(i64, Seq<(usize, usize)>)>>,
) -> Seq<Scored> {
    match engine {
        Engine::Skim => skim_candidates(es, q, es.len() as int),
        Engine::Fuse => fuse_candidates(es, q.len() as int, hits, es.len() as int),
    }
}

/// Higher keys rank first under subsequence scoring, lower ones under token alignment.
pub open spec fn descending(engine: Engine) -> bool {
    engine == Engine::Skim
}

/// `r` is what a ranking pass may return: the candidates in some rank
/// order, cut to `max`, as results.
pub open spec fn is_search_result(
    es: Seq<EntryView>,
    q: Seq<char>,
    engine: Engine,
    hits: Seq<Option<(i64, Seq<(usize, usize)>)>>,
    max: int,
    r: Seq<ResultView>,
) -> bool {
    exists|ranked: Seq<Scored>|
        is_ranking(candidates(es, q, engine, hits), ranked, descending(engine)) && r
            == ranked_results(es, ranked, max)
}

pub proof fn lemma_candidate_bounds(
    es: Seq<EntryView>,
    q: Seq<char>,
    engine: Engine,
    hits: Seq<Option<(i64, Seq<(usize, usize)>)>>,
)
    requires
        es.len() <= usize::MAX,
    ensures
        forall|k: int|
            0 <= k < candidates(es, q, engine, hits).len() ==> #[trigger] candidates(
                es,
                q,
                engine,
                hits,
            )[k].index < es.len(),
{
    lemma_skim_bounds(es, q, es.len() as int);
    lemma_fuse_bounds(es, q.len() as int, hits, es.len() as int);
}

proof fn lemma_skim_bounds(es: Seq<EntryView>, q: Seq<char>, n: int)
    requires
        n <= es.len() <= usize::MAX,
    ensures
        forall|k: int|
            0 <= k < skim_candidates(es, q, n).len() ==> #[trigger] skim_candidates(es, q, n)[k].index
                < n,
    decreases n,
{
    if n > 0 {
        lemma_skim_bounds(es, q, n - 1);
        let prev = skim_candidates(es, q, n - 1);
        let cur = skim_candidates(es, q, n);
        assert forall|k: int| 0 <= k < cur.len() implies #[trigger] cur[k].index < n by {
            if k < prev.len() {
                assert(cur[k] == prev[k]);
            }
        }
    }
}

proof fn lemma_fuse_bounds(
    es: Seq<EntryView>,
    qlen: int,
    hits: Seq<Option<(i64, Seq<(usize, usize)>)>>,
    n: int,
)
    requires
        n <= es.len() <= usize::MAX,
    ensures
        forall|k: int|
            0 <= k < fuse_candidates(es, qlen, hits, n).len() ==> #[trigger] fuse_candidates(
                es,
                qlen,
                hits,
                n,
            )[k].index < n,
    decreases n,
{
    if n > 0 {
        lemma_fuse_bounds(es, qlen, hits, n - 1);
        let prev = fuse_candidates(es, qlen, hits, n - 1);
        let cur = fuse_candidates(es, qlen, hits, n);
        assert forall|k: int| 0 <= k < cur.len() implies #[trigger] cur[k].index < n by {
            if k < prev.len() {
                assert(cur[k] == prev[k]);
            }
        }
    }
}

/// Every element of a ranking is a candidate.
pub proof fn lemma_ranking_members(cands: Seq<Scored>, r: Seq<Scored>, desc: bool)
    requires
        is_ranking(cands, r, desc),
    ensures
        forall|k: int| 0 <= k < r.len() ==> cands.contains(#[trigger] r[k]),
{
    broadcast use vstd::seq_lib::group_to_multiset_ensures;

    assert forall|k: int| 0 <= k < r.len() implies cands.contains(#[trigger] r[k]) by {
        assert(r.contains(r[k]));
        assert(r.to_multiset().count(r[k]) > 0);
    }
}

/// Two rankings of the same candidates hold the same entries, and in each an
/// entry with a strictly better key comes before one with a worse key, so
/// only entries with equal keys may change places between runs.
pub proof fn lemma_ranking_determinism(
    cands: Seq<Scored>,
    r1: Seq<Scored>,
    r2: Seq<Scored>,
    desc: bool,
)
    requires
        is_ranking(cands, r1, desc),
        is_ranking(cands, r2, desc),
    ensures
        r1.to_multiset() == r2.to_multiset(),
        forall|i: int, j: int|
            0 <= i < r1.len() && 0 <= j < r1.len() && better(r1[i], r1[j], desc) ==> i < j,
        forall|i: int, j: int|
            0 <= i < r2.len() && 0 <= j < r2.len() && better(r2[i], r2[j], desc) ==> i < j,
{
}

/// The path a result launches; empty for URLs and commands.
pub open spec fn result_path(r: ResultView) -> Seq<char> {
    match r {
        ResultView::App(p) => p,
        ResultView::Bin(p) => p,
        ResultView::File(p) => p,
        _ => Seq::empty(),
    }
}

/// Entry positions rise along the sequence.
pub open spec fn indices_increasing(s: Seq<Scored>) -> bool {
    forall|i: int, j: int| 0 <= i < j < s.len() ==> #[trigger] s[i].index < #[trigger] s[j].index
}

proof fn lemma_skim_increasing(es: Seq<EntryView>, q: Seq<char>, n: int)
    requires
        n <= es.len() <= usize::MAX,
    ensures
        indices_increasing(skim_candidates(es, q, n)),
    decreases n,
{
    if n > 0 {
        lemma_skim_increasing(es, q, n - 1);
        lemma_skim_bounds(es, q, n - 1);
        let prev = skim_candidates(es, q, n - 1);
        let cur = skim_candidates(es, q, n);
        assert forall|i: int, j: int| 0 <= i < j < cur.len() implies #[trigger] cur[i].index
            < #[trigger] cur[j].index by {
            assert(cur[i] == prev[i]);
            if j < prev.len() {
                assert(cur[j] == prev[j]);
            }
        }
    }
}

proof fn lemma_fuse_increasing(
    es: Seq<EntryView>,
    qlen: int,
    hits: Seq<Option<(i64, Seq<(usize, usize)>)>>,
    n: int,
)
    requires
        n <= es.len() <= usize::MAX,
    ensures
        indices_increasing(fuse_candidates(es, qlen, hits, n)),
    decreases n,
{
    if n > 0 {
        lemma_fuse_increasing(es, qlen, hits, n - 1);
        lemma_fuse_bounds(es, qlen, hits, n - 1);
        let prev = fuse_candidates(es, qlen, hits, n - 1);
        let cur = fuse_candidates(es, qlen, hits, n);
        assert forall|i: int, j: int| 0 <= i < j < cur.len() implies #[trigger] cur[i].index
            < #[trigger] cur[j].index by {
            assert(cur[i] == prev[i]);
            if j < prev.len() {
                assert(cur[j] == prev[j]);
            }
        }
    }
}

pub proof fn lemma_candidates_increasing(
    es: Seq<EntryView>,
    q: Seq<char>,
    engine: Engine,
    hits: Seq<Option<(i64, Seq<(usize, usize)>)>>,
)
    requires
        es.len() <= usize::MAX,
    ensures
        indices_increasing(candidates(es, q, engine, hits)),
{
    lemma_skim_increasing(es, q, es.len() as int);
    lemma_fuse_increasing(es, q.len() as int, hits, es.len() as int);
}

/// A ranking of candidates with distinct entry positions names each entry once.
pub proof fn lemma_ranking_distinct(cands: Seq<Scored>, r: Seq<Scored>, desc: bool)
    requires
        is_ranking(cands, r, desc),
        indices_increasing(cands),
    ensures
        forall|i: int, j: int| 0 <= i < j < r.len() ==> #[trigger] r[i].index != #[trigger] r[j].index,
{
    broadcast use vstd::seq_lib::group_to_multiset_ensures;

    assert(cands.no_duplicates()) by {
        assert forall|a: int, b: int| 0 <= a < cands.len() && 0 <= b < cands.len() && a != b implies cands[a]
            != cands[b] by {
            if a < b {
                assert(cands[a].index < cands[b].index);
            } else {
                assert(cands[b].index < cands[a].index);
            }
        }
    }
    cands.lemma_multiset_has_no_duplicates();
    r.lemma_multiset_has_no_duplicates_conv();
    lemma_ranking_members(cands, r, desc);
    assert forall|i: int, j: int| 0 <= i < j < r.len() implies #[trigger] r[i].index
        != #[trigger] r[j].index by {
        assert(cands.contains(r[i]));
        assert(cands.contains(r[j]));
        let a = choose|a: int| 0 <= a < cands.len() && cands[a] == r[i];
        let b = choose|b: int| 0 <= b < cands.len() && cands[b] == r[j];
        assert(r[i] != r[j]);
        if a < b {
            assert(cands[a].index < cands[b].index);
        } else if b < a {
            assert(cands[b].index < cands[a].index);
        }
    }
}

/// How many ranked candidates a cut to `max` keeps.
pub open spec fn cut_len(r: Seq<Scored>, max: int) -> int {
    if r.len() < max {
        r.len() as int
    } else {
        max
    }
}

/// Everything kept at a cut ranks strictly above what the cut drops.
pub open spec fn clean_cut(r: Seq<Scored>, k: int, desc: bool) -> bool {
    k <= 0 || k >= r.len() || better(r[k - 1], r[k], desc)
}

proof fn lemma_no_duplicates(r: Seq<Scored>)
    requires
        forall|i: int, j: int| 0 <= i < j < r.len() ==> #[trigger] r[i].index != #[trigger] r[j].index,
    ensures
        r.no_duplicates(),
{
    assert forall|a: int, b: int| 0 <= a < r.len() && 0 <= b < r.len() && a != b implies r[a]
        != r[b] by {
        if a < b {
            assert(r[a].index != r[b].index);
        } else {
            assert(r[b].index != r[a].index);
        }
    }
}

/// Under a clean cut at `k` in `r1`, what `r1` keeps, `r2` keeps too.
proof fn lemma_kept_in_both(r1: Seq<Scored>, r2: Seq<Scored>, desc: bool, k: int)
    requires
        sorted_by_rank(r1, desc),
        sorted_by_rank(r2, desc),
        r1.no_duplicates(),
        r2.no_duplicates(),
        r1.len() == r2.len(),
        forall|y: Scored| r1.contains(y) <==> r2.contains(y),
        0 < k < r1.len(),
        better(r1[k - 1], r1[k], desc),
    ensures
        forall|x: Scored| r1.take(k).contains(x) ==> r2.take(k).contains(x),
{
    let t = r1[k];
    assert forall|x: Scored| r1.take(k).contains(x) implies r2.take(k).contains(x) by {
        let a = choose|a: int| 0 <= a < k && r1.take(k)[a] == x;
        assert(r1[a] == x);
        assert(better(x, t, desc)) by {
            if a < k - 1 {
                assert(!better(r1[k - 1], r1[a], desc));
            }
        }
        assert(r1.contains(x));
        let p = choose|p: int| 0 <= p < r2.len() && r2[p] == x;
        if p >= k {
            let top = r2.take(p + 1);
            let kept = r1.take(k);
            assert forall|y: Scored| top.to_set().contains(y) implies kept.to_set().contains(y) by {
                let q = choose|q: int| 0 <= q < top.len() && top[q] == y;
                assert(r2[q] == y);
                if q < p {
                    assert(!better(r2[p], r2[q], desc));
                }
                assert(better(y, t, desc));
                assert(r2.contains(y));
                let m = choose|m: int| 0 <= m < r1.len() && r1[m] == y;
                if m > k {
                    assert(!better(r1[m], r1[k], desc));
                }
                assert(m < k);
                assert(kept[m] == y);
            }
            assert(top.no_duplicates());
            assert(kept.no_duplicates());
            top.unique_seq_to_set();
            kept.unique_seq_to_set();
            vstd::set_lib::lemma_len_subset(top.to_set(), kept.to_set());
        }
        assert(r2.take(k)[p] == x);
    }
}

/// Two rankings of the same candidates, each cut to `max`, have the same
/// length. Where no two candidates with equal keys straddle the cut, they
/// keep the same entries; within each, strictly better keys come first.
pub proof fn lemma_cut_determinism(
    cands: Seq<Scored>,
    r1: Seq<Scored>,
    r2: Seq<Scored>,
    desc: bool,
    max: int,
)
    requires
        is_ranking(cands, r1, desc),
        is_ranking(cands, r2, desc),
        indices_increasing(cands),
        0 <= max,
    ensures
        cut_len(r1, max) == cut_len(r2, max),
        clean_cut(r1, cut_len(r1, max), desc) ==> forall|x: Scored|
            r1.take(cut_len(r1, max)).contains(x) <==> r2.take(cut_len(r2, max)).contains(x),
        forall|i: int, j: int|
            0 <= i < cut_len(r1, max) && 0 <= j < cut_len(r1, max) && better(r1[i], r1[j], desc)
                ==> i < j,
        forall|i: int, j: int|
            0 <= i < cut_len(r2, max) && 0 <= j < cut_len(r2, max) && better(r2[i], r2[j], desc)
                ==> i < j,
{
    broadcast use vstd::seq_lib::group_to_multiset_ensures;

    let k = cut_len(r1, max);
    assert(r1.len() == r1.to_multiset().len() == r2.to_multiset().len() == r2.len());
    lemma_ranking_distinct(cands, r1, desc);
    lemma_ranking_distinct(cands, r2, desc);
    lemma_no_duplicates(r1);
    lemma_no_duplicates(r2);
    assert forall|y: Scored| r1.contains(y) <==> r2.contains(y) by {
        assert(r1.contains(y) <==> r1.to_multiset().count(y) > 0);
        assert(r2.contains(y) <==> r2.to_multiset().count(y) > 0);
    }
    if clean_cut(r1, k, desc) {
        if k == 0 {
            assert forall|x: Scored| r1.take(k).contains(x) <==> r2.take(k).contains(x) by {
            }
        } else if k >= r1.len() {
            assert(r1.take(k) =~= r1);
            assert(r2.take(k) =~= r2);
        } else {
            lemma_kept_in_both(r1, r2, desc, k);
            assert forall|x: Scored| r2.take(k).contains(x) implies r1.take(k).contains(x) by {
                if !r1.take(k).contains(x) {
                    let kept = r1.take(k);
                    let top = r2.take(k);
                    assert forall|y: Scored| kept.to_set().insert(x).contains(y) implies top.to_set().contains(
                        y,
                    ) by {
                        if y != x {
                            assert(kept.contains(y));
                        }
                    }
                    assert(kept.no_duplicates());
                    assert(top.no_duplicates());
                    kept.unique_seq_to_set();
                    top.unique_seq_to_set();
                    assert(!kept.to_set().contains(x));
                    vstd::set_lib::lemma_len_subset(kept.to_set().insert(x), top.to_set());
                }
            }
        }
    }
}

/// No two distinct candidates share a key.
pub open spec fn keys_distinct(cands: Seq<Scored>, desc: bool) -> bool {
    forall|a: Scored, b: Scored|
        cands.contains(a) && cands.contains(b) && a != b ==> better(a, b, desc) || better(
            b,
            a,
            desc,
        )
}

/// Two results of the same search have the same length, and they hold the
/// same results wherever the cut keeps every candidate or no two candidates
/// share a key.
pub proof fn lemma_search_determinism(
    es: Seq<EntryView>,
    q: Seq<char>,
    engine: Engine,
    hits: Seq<Option<(i64, Seq<(usize, usize)>)>>,
    max: int,
    v1: Seq<ResultView>,
    v2: Seq<ResultView>,
)
    requires
        es.len() <= usize::MAX,
        0 <= max,
        is_search_result(es, q, engine, hits, max, v1),
        is_search_result(es, q, engine, hits, max, v2),
    ensures
        v1.len() == v2.len(),
        max >= candidates(es, q, engine, hits).len() || keys_distinct(
            candidates(es, q, engine, hits),
            descending(engine),
        ) ==> forall|x: ResultView| v1.contains(x) <==> v2.contains(x),
{
    broadcast use vstd::seq_lib::group_to_multiset_ensures;

    let cands = candidates(es, q, engine, hits);
    let desc = descending(engine);
    let r1 = choose|r: Seq<Scored>| is_ranking(cands, r, desc) && v1 == ranked_results(es, r, max);
    let r2 = choose|r: Seq<Scored>| is_ranking(cands, r, desc) && v2 == ranked_results(es, r, max);
    lemma_candidates_increasing(es, q, engine, hits);
    lemma_cut_determinism(cands, r1, r2, desc, max);
    let k = cut_len(r1, max);
    assert(r1.len() == r1.to_multiset().len() == cands.len());
    if max >= cands.len() || keys_distinct(cands, desc) {
        assert(clean_cut(r1, k, desc)) by {
            if 0 < k < r1.len() {
                lemma_ranking_members(cands, r1, desc);
                lemma_ranking_distinct(cands, r1, desc);
                assert(r1[k - 1].index != r1[k].index);
            }
        }
        assert forall|x: ResultView| v1.contains(x) implies v2.contains(x) by {
            let i = choose|i: int| 0 <= i < v1.len() && v1[i] == x;
            let y = r1.take(k)[i];
            assert(r1.take(k).contains(y));
            let j = choose|j: int| 0 <= j < k && r2.take(k)[j] == y;
            assert(v2[j] == x);
        }
        assert forall|x: ResultView| v2.contains(x) implies v1.contains(x) by {
            let j = choose|j: int| 0 <= j < v2.len() && v2[j] == x;
            let y = r2.take(k)[j];
            assert(r2.take(k).contains(y));
            let i = choose|i: int| 0 <= i < k && r1.take(k)[i] == y;
            assert(v1[i] == x);
        }
    }
}

} // verus!

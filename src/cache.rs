//! The index of entries and the memoized result lists, with the merge of a
//! delta into the shared cache.

use vstd::prelude::*;
use crate::entry::{
    child_entry, child_pair, children_entries, dir_entry, dir_view, listings_view, scan_entries,
    DirChild, DirListing, EntryView, FileEntry, FileEntryType,
};
use crate::keyed::{has_key, keyed_map, keys_unique, lemma_keyed_at, lemma_keyed_empty,
    lemma_keyed_push, lemma_keyed_update};
use crate::result::{results_view, LauncherResult, ResultView};
use crate::text::same_text;
use crate::config::Engine;
use crate::rank::{candidates, ranked_results, entry_result, lemma_candidates_increasing, lemma_ranking_distinct,
    result_path, hit_view, is_search_result, lemma_candidate_bounds,
    lemma_ranking_members, rank_sort, skim_scores, fuse_scores, to_results, FuseHit};

verus! {

/// A memoized query with its result list.
#[derive(Debug)]
pub struct Memo {
    pub query: String,
    pub results: Vec<LauncherResult>,
}

/// Entries keyed by path, and result lists keyed by trimmed query.
#[derive(Debug)]
pub struct Cache {
    file_entries: Vec<FileEntry>,
    search_results: Vec<Memo>,
}

pub struct CacheView {
    pub entries: Map<Seq<char>, EntryView>,
    pub results: Map<Seq<char>, Seq<ResultView>>,
}

pub open spec fn entry_pairs(s: Seq<FileEntry>) -> Seq<(Seq<char>, EntryView)> {
    s.map_values(|e: FileEntry| (e.full_path@, e@))
}

pub open spec fn memo_pairs(s: Seq<Memo>) -> Seq<(Seq<char>, Seq<ResultView>)> {
    s.map_values(|m: Memo| (m.query@, results_view(m.results@)))
}

/// `m` with each entry of `s` put in turn; a later entry replaces an earlier
/// one with the same path.
pub open spec fn insert_all(m: Map<Seq<char>, EntryView>, s: Seq<EntryView>) -> Map<
    Seq<char>,
    EntryView,
>
    decreases s.len(),
{
    if s.len() == 0 {
        m
    } else {
        insert_all(m, s.drop_last()).insert(s.last().path, s.last())
    }
}

/// A delta merged into a cache: its entries replace those of the same path,
/// and its result lists are added only for queries not memoized yet.
pub open spec fn merge_spec(c: CacheView, d: CacheView) -> CacheView {
    CacheView {
        entries: c.entries.union_prefer_right(d.entries),
        results: d.results.union_prefer_right(c.results),
    }
}

/// The result map after a list is offered for `q`: a memoized list is kept.
pub open spec fn keep_first(
    results: Map<Seq<char>, Seq<ResultView>>,
    q: Seq<char>,
    v: Seq<ResultView>,
) -> Map<Seq<char>, Seq<ResultView>> {
    if results.contains_key(q) {
        results
    } else {
        results.insert(q, v)
    }
}

impl View for Cache {
    type V = CacheView;

    closed spec fn view(&self) -> CacheView {
        CacheView {
            entries: keyed_map(entry_pairs(self.file_entries@)),
            results: keyed_map(memo_pairs(self.search_results@)),
        }
    }
}

impl Cache {
    /// Paths and memoized queries are unique.
    pub closed spec fn wf(&self) -> bool {
        keys_unique(entry_pairs(self.file_entries@)) && keys_unique(
            memo_pairs(self.search_results@),
        )
    }

    /// The entries in index order.
    pub closed spec fn entry_seq(&self) -> Seq<EntryView> {
        self.file_entries@.map_values(|e: FileEntry| e@)
    }

    pub fn new() -> (r: Cache)
        ensures
            r.wf(),
            r@.entries == Map::<Seq<char>, EntryView>::empty(),
            r@.results == Map::<Seq<char>, Seq<ResultView>>::empty(),
    {
        let r = Cache { file_entries: Vec::new(), search_results: Vec::new() };
        proof {
            lemma_keyed_empty(entry_pairs(r.file_entries@));
            lemma_keyed_empty(memo_pairs(r.search_results@));
        }
        r
    }

    /// The indexed entries, in index order.
    pub fn entries(&self) -> (r: &Vec<FileEntry>)
        requires
            self.wf(),
        ensures
            r@.map_values(|e: FileEntry| e@) == self.entry_seq(),
            forall|i: int|
                0 <= i < r@.len() ==> #[trigger] self@.entries.contains_key(r@[i].full_path@)
                    && self@.entries[r@[i].full_path@] == r@[i]@,
            forall|p: Seq<char>|
                #[trigger] self@.entries.contains_key(p) ==> exists|i: int|
                    0 <= i < r@.len() && r@[i].full_path@ == p,
            forall|i: int, j: int|
                0 <= i < j < r@.len() ==> #[trigger] r@[i].full_path@ != #[trigger] r@[j].full_path@,
    {
        proof {
            let ps = entry_pairs(self.file_entries@);
            assert forall|i: int, j: int| 0 <= i < j < self.file_entries@.len() implies #[trigger] self.file_entries@[i].full_path@
                != #[trigger] self.file_entries@[j].full_path@ by {
                assert(ps[i].0 != ps[j].0);
            }
            assert forall|i: int| 0 <= i < self.file_entries@.len() implies #[trigger] self@.entries.contains_key(
                self.file_entries@[i].full_path@,
            ) && self@.entries[self.file_entries@[i].full_path@] == self.file_entries@[i]@ by {
                lemma_keyed_at(ps, i);
            }
            assert forall|p: Seq<char>| #[trigger] self@.entries.contains_key(p) implies exists|i: int|
                0 <= i < self.file_entries@.len() && self.file_entries@[i].full_path@ == p by {
                let i = choose|i: int| 0 <= i < ps.len() && ps[i].0 == p;
                assert(self.file_entries@[i].full_path@ == p);
            }
        }
        &self.file_entries
    }

    fn find_entry(&self, path: &String) -> (r: Option<usize>)
        requires
            self.wf(),
        ensures
            match r {
                Some(i) => i < self.file_entries@.len() && self.file_entries@[i as int].full_path@
                    == path@,
                None => !has_key(entry_pairs(self.file_entries@), path@),
            },
    {
        let mut i: usize = 0;
        while i < self.file_entries.len()
            invariant
                i <= self.file_entries@.len(),
                forall|k: int| 0 <= k < i ==> self.file_entries@[k].full_path@ != path@,
            decreases self.file_entries@.len() - i,
        {
            if same_text(self.file_entries[i].full_path.as_str(), path.as_str()) {
                return Some(i);
            }
            i = i + 1;
        }
        proof {
            if has_key(entry_pairs(self.file_entries@), path@) {
                let k = choose|k: int|
                    0 <= k < self.file_entries@.len() && entry_pairs(self.file_entries@)[k].0
                        == path@;
            }
        }
        None
    }

    /// Puts `e` in the index, in place of an entry with the same path.
    pub fn insert_entry(&mut self, e: FileEntry)
        requires
            old(self).wf(),
        ensures
            final(self).wf(),
            final(self)@.entries == old(self)@.entries.insert(e@.path, e@),
            final(self)@.results == old(self)@.results,
    {
        let ghost ev = e@;
        match self.find_entry(&e.full_path) {
            Some(i) => {
                proof {
                    lemma_keyed_update(entry_pairs(self.file_entries@), i as int, ev);
                }
                self.file_entries.set(i, e);
                proof {
                    assert(entry_pairs(self.file_entries@) =~= entry_pairs(
                        old(self).file_entries@,
                    ).update(i as int, (ev.path, ev)));
                }
            },
            None => {
                proof {
                    lemma_keyed_push(entry_pairs(self.file_entries@), ev.path, ev);
                }
                self.file_entries.push(e);
                proof {
                    assert(entry_pairs(self.file_entries@) =~= entry_pairs(
                        old(self).file_entries@,
                    ).push((ev.path, ev)));
                }
            },
        }
    }

    fn find_results(&self, query: &str) -> (r: Option<usize>)
        requires
            self.wf(),
        ensures
            match r {
                Some(i) => i < self.search_results@.len() && self.search_results@[i as int].query@
                    == query@,
                None => !has_key(memo_pairs(self.search_results@), query@),
            },
    {
        let mut i: usize = 0;
        while i < self.search_results.len()
            invariant
                i <= self.search_results@.len(),
                forall|k: int| 0 <= k < i ==> self.search_results@[k].query@ != query@,
            decreases self.search_results@.len() - i,
        {
            if same_text(self.search_results[i].query.as_str(), query) {
                return Some(i);
            }
            i = i + 1;
        }
        proof {
            if has_key(memo_pairs(self.search_results@), query@) {
                let k = choose|k: int|
                    0 <= k < self.search_results@.len() && memo_pairs(self.search_results@)[k].0
                        == query@;
            }
        }
        None
    }

    /// The result list memoized for `query`, if there is one.
    pub fn get_results(&self, query: &str) -> (r: Option<&Vec<LauncherResult>>)
        requires
            self.wf(),
        ensures
            match r {
                Some(v) => self@.results.contains_key(query@) && results_view(v@)
                    == self@.results[query@],
                None => !self@.results.contains_key(query@),
            },
    {
        match self.find_results(query) {
            Some(i) => {
                proof {
                    lemma_keyed_at(memo_pairs(self.search_results@), i as int);
                }
                Some(&self.search_results[i].results)
            },
            None => None,
        }
    }

    /// Memoizes `results` for `query`, unless a list is memoized for it already.
    pub fn add_results(&mut self, query: &str, results: Vec<LauncherResult>)
        requires
            old(self).wf(),
        ensures
            final(self).wf(),
            final(self)@.entries == old(self)@.entries,
            final(self)@.results == keep_first(
                old(self)@.results,
                query@,
                results_view(results@),
            ),
    {
        match self.find_results(query) {
            Some(i) => {
                proof {
                    lemma_keyed_at(memo_pairs(self.search_results@), i as int);
                }
            },
            None => {
                let ghost v = results_view(results@);
                proof {
                    lemma_keyed_push(memo_pairs(self.search_results@), query@, v);
                }
                self.search_results.push(Memo { query: String::from_str(query), results });
                proof {
                    assert(memo_pairs(self.search_results@) =~= memo_pairs(
                        old(self).search_results@,
                    ).push((query@, v)));
                }
            },
        }
    }

    fn duplicate_results(v: &Vec<LauncherResult>) -> (r: Vec<LauncherResult>)
        ensures
            results_view(r@) == results_view(v@),
    {
        let mut r: Vec<LauncherResult> = Vec::new();
        let mut i: usize = 0;
        while i < v.len()
            invariant
                i <= v@.len(),
                r@.len() == i,
                forall|k: int| 0 <= k < i ==> #[trigger] r@[k]@ == v@[k]@,
            decreases v@.len() - i,
        {
            r.push(v[i].duplicate());
            i = i + 1;
        }
        assert(results_view(r@) =~= results_view(v@));
        r
    }

    /// Merges `delta` in: its entries replace those with the same path, and
    /// its result lists are added for the queries not memoized yet.
    pub fn merge(&mut self, delta: &Cache)
        requires
            old(self).wf(),
            delta.wf(),
        ensures
            final(self).wf(),
            final(self)@ == merge_spec(old(self)@, delta@),
    {
        let ghost c0 = self@;
        let ghost dp = entry_pairs(delta.file_entries@);
        let mut i: usize = 0;
        proof {
            lemma_keyed_empty(dp.take(0));
            assert(c0.entries =~= c0.entries.union_prefer_right(keyed_map(dp.take(0))));
        }
        while i < delta.file_entries.len()
            invariant
                self.wf(),
                delta.wf(),
                dp == entry_pairs(delta.file_entries@),
                i <= delta.file_entries@.len(),
                self@.entries == c0.entries.union_prefer_right(keyed_map(dp.take(i as int))),
                self@.results == c0.results,
            decreases delta.file_entries@.len() - i,
        {
            let e = delta.file_entries[i].duplicate();
            proof {
                assert(dp.take(i as int + 1) =~= dp.take(i as int).push(dp[i as int]));
                assert(!has_key(dp.take(i as int), dp[i as int].0)) by {
                    if has_key(dp.take(i as int), dp[i as int].0) {
                        let k = choose|k: int|
                            0 <= k < i && dp.take(i as int)[k].0 == dp[i as int].0;
                        assert(dp[k].0 == dp[i as int].0);
                    }
                }
                assert(keys_unique(dp.take(i as int)));
                lemma_keyed_push(dp.take(i as int), dp[i as int].0, dp[i as int].1);
            }
            self.insert_entry(e);
            i = i + 1;
            proof {
                assert(self@.entries =~= c0.entries.union_prefer_right(
                    keyed_map(dp.take(i as int)),
                ));
            }
        }
        proof {
            assert(dp.take(i as int) =~= dp);
        }
        let ghost mp = memo_pairs(delta.search_results@);
        let mut j: usize = 0;
        proof {
            lemma_keyed_empty(mp.take(0));
            assert(c0.results =~= keyed_map(mp.take(0)).union_prefer_right(c0.results));
        }
        while j < delta.search_results.len()
            invariant
                self.wf(),
                delta.wf(),
                mp == memo_pairs(delta.search_results@),
                j <= delta.search_results@.len(),
                self@.entries == c0.entries.union_prefer_right(delta@.entries),
                self@.results == keyed_map(mp.take(j as int)).union_prefer_right(c0.results),
            decreases delta.search_results@.len() - j,
        {
            let v = Self::duplicate_results(&delta.search_results[j].results);
            proof {
                assert(mp.take(j as int + 1) =~= mp.take(j as int).push(mp[j as int]));
                assert(!has_key(mp.take(j as int), mp[j as int].0)) by {
                    if has_key(mp.take(j as int), mp[j as int].0) {
                        let k = choose|k: int|
                            0 <= k < j && mp.take(j as int)[k].0 == mp[j as int].0;
                        assert(mp[k].0 == mp[j as int].0);
                    }
                }
                assert(keys_unique(mp.take(j as int)));
                lemma_keyed_push(mp.take(j as int), mp[j as int].0, mp[j as int].1);
            }
            self.add_results(delta.search_results[j].query.as_str(), v);
            j = j + 1;
            proof {
                assert(self@.results =~= keyed_map(mp.take(j as int)).union_prefer_right(
                    c0.results,
                ));
            }
        }
        proof {
            assert(mp.take(j as int) =~= mp);
        }
    }

    /// Indexes the directories of `listings` as `kind`: each directory
    /// itself, then its children, in the order given.
    pub fn add_dir(&mut self, listings: &Vec<DirListing>, kind: FileEntryType)
        requires
            old(self).wf(),
        ensures
            final(self).wf(),
            final(self)@.entries == insert_all(
                old(self)@.entries,
                scan_entries(listings_view(listings@), kind),
            ),
            final(self)@.results == old(self)@.results,
    {
        let ghost ls = listings_view(listings@);
        let ghost m0 = self@.entries;
        let ghost mut done: Seq<EntryView> = Seq::empty();
        let mut i: usize = 0;
        while i < listings.len()
            invariant
                self.wf(),
                ls == listings_view(listings@),
                i <= listings@.len(),
                done == scan_entries(ls.take(i as int), kind),
                self@.entries == insert_all(m0, done),
                self@.results == old(self)@.results,
            decreases listings@.len() - i,
        {
            let l = &listings[i];
            let d = dir_entry(l.location.as_str());
            proof {
                assert(done.push(d@).drop_last() =~= done);
            }
            self.insert_entry(d);
            proof {
                done = done.push(d@);
            }
            let ghost base = scan_entries(ls.take(i as int), kind) + seq![dir_view(ls[i as int].0)];
            let ghost cs = ls[i as int].1;
            proof {
                assert(cs.take(0) =~= Seq::<(Seq<char>, Seq<char>)>::empty());
                assert(done =~= base + children_entries(cs.take(0), kind));
            }
            let mut j: usize = 0;
            while j < l.children.len()
                invariant
                    self.wf(),
                    ls == listings_view(listings@),
                    i < listings@.len(),
                    l == listings@[i as int],
                    cs == ls[i as int].1,
                    cs == l.children@.map_values(|c: DirChild| child_pair(c)),
                    j <= l.children@.len(),
                    done == base + children_entries(cs.take(j as int), kind),
                    self@.entries == insert_all(m0, done),
                    self@.results == old(self)@.results,
                decreases l.children@.len() - j,
            {
                let c = &l.children[j];
                let o = child_entry(&c.path, &c.name, kind);
                proof {
                    assert(cs.take(j as int + 1).drop_last() =~= cs.take(j as int));
                    assert(cs[j as int] == child_pair(*c));
                }
                match o {
                    Some(e) => {
                        proof {
                            assert(done.push(e@).drop_last() =~= done);
                            assert(done.push(e@) =~= base + children_entries(
                                cs.take(j as int + 1),
                                kind,
                            ));
                        }
                        self.insert_entry(e);
                        proof {
                            done = done.push(e@);
                        }
                    },
                    None => {
                        proof {
                            assert(done =~= base + children_entries(cs.take(j as int + 1), kind));
                        }
                    },
                }
                j = j + 1;
            }
            proof {
                assert(cs.take(j as int) =~= cs);
                assert(ls.take(i as int + 1).drop_last() =~= ls.take(i as int));
                assert(done =~= scan_entries(ls.take(i as int + 1), kind));
            }
            i = i + 1;
        }
        proof {
            assert(ls.take(i as int) =~= ls);
        }
    }

    /// A cache that indexes application directories, the directories of the
    /// executable search path and the home directory, in that order.
    pub fn init(apps: &Vec<DirListing>, bins: &Vec<DirListing>, home: &Vec<DirListing>) -> (r:
        Cache)
        ensures
            r.wf(),
            r@.entries == insert_all(
                insert_all(
                    insert_all(
                        Map::empty(),
                        scan_entries(listings_view(apps@), FileEntryType::App),
                    ),
                    scan_entries(listings_view(bins@), FileEntryType::Bin),
                ),
                scan_entries(listings_view(home@), FileEntryType::File),
            ),
            r@.results == Map::<Seq<char>, Seq<ResultView>>::empty(),
    {
        let mut c = Cache::new();
        c.add_dir(apps, FileEntryType::App);
        c.add_dir(bins, FileEntryType::Bin);
        c.add_dir(home, FileEntryType::File);
        c
    }

    /// Ranks the indexed entries for `query` with `engine` and keeps the
    /// first `max` as results. `fuse_hits` holds, at each entry's position,
    /// what the token-alignment matcher found in its name.
    pub fn search(
        &self,
        query: &str,
        engine: Engine,
        max: usize,
        fuse_hits: &Vec<Option<FuseHit>>,
    ) -> (r: Vec<LauncherResult>)
        requires
            self.wf(),
        ensures
            is_search_result(
                self.entry_seq(),
                query@,
                engine,
                fuse_hits@.map_values(|h: Option<FuseHit>| hit_view(h)),
                max as int,
                results_view(r@),
            ),
            forall|i: int, j: int|
                0 <= i < j < r@.len() ==> result_path(#[trigger] r@[i]@) != result_path(
                    #[trigger] r@[j]@,
                ),
            forall|i: int|
                0 <= i < r@.len() ==> self@.entries.contains_key(result_path(#[trigger] r@[i]@))
                    && r@[i]@ == entry_result(self@.entries[result_path(r@[i]@)]),
    {
        let entries = self.entries();
        let ghost es = self.entry_seq();
        let count = entries.len();
        let ghost hs = fuse_hits@.map_values(|h: Option<FuseHit>| hit_view(h));
        let cands = match engine {
            Engine::Skim => skim_scores(entries, query),
            Engine::Fuse => fuse_scores(entries, query, fuse_hits),
        };
        let desc = match engine {
            Engine::Skim => true,
            Engine::Fuse => false,
        };
        let ranked = rank_sort(&cands, desc);
        proof {
            assert(cands@ == candidates(es, query@, engine, hs));
            assert(es.len() == entries@.len() == count);
            lemma_candidate_bounds(es, query@, engine, hs);
            lemma_ranking_members(cands@, ranked@, desc);
            assert forall|k: int| 0 <= k < ranked@.len() implies #[trigger] ranked@[k].index
                < entries@.len() by {
                assert(cands@.contains(ranked@[k]));
                let m = choose|m: int| 0 <= m < cands@.len() && cands@[m] == ranked@[k];
            }
        }
        let r = to_results(entries, &ranked, max);
        proof {
            lemma_candidates_increasing(es, query@, engine, hs);
            lemma_ranking_distinct(cands@, ranked@, desc);
            let ps = entry_pairs(self.file_entries@);
            let k = if ranked@.len() < max {
                ranked@.len() as int
            } else {
                max as int
            };
            assert(r@.len() == results_view(r@).len() == k);
            assert forall|i: int| 0 <= i < r@.len() implies #[trigger] r@[i]@ == entry_result(
                es[ranked@[i].index as int],
            ) && result_path(r@[i]@) == es[ranked@[i].index as int].path by {
                assert(results_view(r@)[i] == r@[i]@);
                assert(ranked@.take(k)[i] == ranked@[i]);
                assert(results_view(r@)[i] == ranked_results(es, ranked@, max as int)[i]);
            }
            assert forall|i: int, j: int| 0 <= i < j < r@.len() implies result_path(
                #[trigger] r@[i]@,
            ) != result_path(#[trigger] r@[j]@) by {
                let a = ranked@[i].index as int;
                let b = ranked@[j].index as int;
                assert(a != b);
                if a < b {
                    assert(ps[a].0 != ps[b].0);
                } else {
                    assert(ps[b].0 != ps[a].0);
                }
            }
            assert forall|i: int| 0 <= i < r@.len() implies self@.entries.contains_key(
                result_path(#[trigger] r@[i]@),
            ) && r@[i]@ == entry_result(self@.entries[result_path(r@[i]@)]) by {
                let a = ranked@[i].index as int;
                lemma_keyed_at(ps, a);
                assert(ps[a].0 == es[a].path);
                assert(ps[a].1 == es[a]);
                assert(result_path(r@[i]@) == es[a].path);
            }
        }
        r
    }

    /// A copy of the cache, which a resolution reads without holding the
    /// shared one.
    pub fn snapshot(&self) -> (r: Cache)
        requires
            self.wf(),
        ensures
            r.wf(),
            r@ == self@,
            r.entry_seq() == self.entry_seq(),
    {
        let mut file_entries: Vec<FileEntry> = Vec::new();
        let mut i: usize = 0;
        while i < self.file_entries.len()
            invariant
                i <= self.file_entries@.len(),
                file_entries@.len() == i,
                forall|k: int| 0 <= k < i ==> #[trigger] file_entries@[k]@ == self.file_entries@[k]@,
            decreases self.file_entries@.len() - i,
        {
            file_entries.push(self.file_entries[i].duplicate());
            i = i + 1;
        }
        let mut search_results: Vec<Memo> = Vec::new();
        let mut j: usize = 0;
        while j < self.search_results.len()
            invariant
                j <= self.search_results@.len(),
                search_results@.len() == j,
                forall|k: int| 0 <= k < j ==> #[trigger] search_results@[k].query@ == self.search_results@[k].query@
                    && results_view(search_results@[k].results@) == results_view(self.search_results@[k].results@),
            decreases self.search_results@.len() - j,
        {
            let m = &self.search_results[j];
            search_results.push(Memo { query: m.query.clone(), results: Self::duplicate_results(&m.results) });
            j = j + 1;
        }
        let r = Cache { file_entries, search_results };
        assert(entry_pairs(r.file_entries@) =~= entry_pairs(self.file_entries@));
        assert(memo_pairs(r.search_results@) =~= memo_pairs(self.search_results@));
        assert(r.entry_seq() =~= self.entry_seq());
        r
    }
}


/// Putting a sequence of entries in a map is a right-biased union with the
/// map those entries make on their own.
pub proof fn lemma_insert_all_union(m: Map<Seq<char>, EntryView>, s: Seq<EntryView>)
    ensures
        insert_all(m, s) == m.union_prefer_right(insert_all(Map::empty(), s)),
    decreases s.len(),
{
    if s.len() > 0 {
        lemma_insert_all_union(m, s.drop_last());
        lemma_insert_all_union(Map::empty(), s.drop_last());
        assert(insert_all(m, s) =~= m.union_prefer_right(insert_all(Map::empty(), s)));
    }
}

/// Scanning the same directories twice leaves the index as one scan does:
/// entries are keyed by path and a rescan puts the same entries again.
pub proof fn lemma_scan_idempotent(
    m: Map<Seq<char>, EntryView>,
    ls: Seq<(Seq<char>, Seq<(Seq<char>, Seq<char>)>)>,
    kind: FileEntryType,
)
    ensures
        insert_all(insert_all(m, scan_entries(ls, kind)), scan_entries(ls, kind)) == insert_all(
            m,
            scan_entries(ls, kind),
        ),
{
    let s = scan_entries(ls, kind);
    lemma_insert_all_union(m, s);
    lemma_insert_all_union(insert_all(m, s), s);
    assert(insert_all(insert_all(m, s), s) =~= insert_all(m, s));
}

/// Merging the same delta a second time changes nothing.
pub proof fn lemma_merge_idempotent(c: CacheView, d: CacheView)
    ensures
        merge_spec(merge_spec(c, d), d) == merge_spec(c, d),
{
    assert(merge_spec(merge_spec(c, d), d).entries =~= merge_spec(c, d).entries);
    assert(merge_spec(merge_spec(c, d), d).results =~= merge_spec(c, d).results);
}

/// Two deltas agree on every path and every query that both hold.
pub open spec fn deltas_agree(d1: CacheView, d2: CacheView) -> bool {
    &&& forall|p: Seq<char>|
        #[trigger] d1.entries.contains_key(p) && d2.entries.contains_key(p) ==> d1.entries[p]
            == d2.entries[p]
    &&& forall|q: Seq<char>|
        #[trigger] d1.results.contains_key(q) && d2.results.contains_key(q) ==> d1.results[q]
            == d2.results[q]
}

/// Merges of deltas that agree where they overlap commute, and merging the
/// first again after both changes nothing.
pub proof fn lemma_merge_commutes(c: CacheView, d1: CacheView, d2: CacheView)
    requires
        deltas_agree(d1, d2),
    ensures
        merge_spec(merge_spec(c, d1), d2) == merge_spec(merge_spec(c, d2), d1),
        merge_spec(merge_spec(merge_spec(c, d1), d2), d1) == merge_spec(merge_spec(c, d1), d2),
{
    let a = merge_spec(merge_spec(c, d1), d2);
    let b = merge_spec(merge_spec(c, d2), d1);
    let t = merge_spec(a, d1);
    assert(a.entries =~= b.entries);
    assert(a.results =~= b.results);
    assert(t.entries =~= a.entries);
    assert(t.results =~= a.results);
}

} // verus!

//! Resolution of a typed query into a delta cache.

use vstd::prelude::*;
use crate::cache::{Cache, CacheView};
use crate::config::Config;
use crate::rank::{hit_view, is_search_result, FuseHit};
use crate::result::{prerun_spec, results_view, LauncherResult, ResultView};
use crate::text::{find_char, find_from, has_prefix, starts_with, trim, trim_spec};

verus! {

/// Queries of at least this many characters are taken for free text and
/// are not fuzzy-ranked.
pub const SHORT_QUERY: usize = 15;

/// The text typed by the user.
pub struct Query(String);

impl View for Query {
    type V = Seq<char>;

    closed spec fn view(&self) -> Seq<char> {
        self.0@
    }
}

/// Paths fixed at startup.
pub struct Locations {
    /// The user's home directory.
    pub home: String,
    /// The configuration file.
    pub config_path: String,
}

/// What the environment says about a trimmed query, gathered before it is
/// resolved.
pub struct Probe {
    /// The query names an existing path.
    pub path_exists: bool,
    /// The query, taken relative to the home directory, names an existing path.
    pub home_path_exists: bool,
    /// The query resolves as a host name.
    pub host_found: bool,
    /// At each entry's position in the index, what the token-alignment
    /// matcher found in its name.
    pub fuse_hits: Vec<Option<FuseHit>>,
}

/// A URL for a host-like query: `http://` is put in front unless the text
/// starts with `http://` or `https://`.
pub open spec fn fix_url_spec(u: Seq<char>) -> Seq<char> {
    if has_prefix(u, "http://"@) || has_prefix(u, "https://"@) {
        u
    } else {
        "http://"@ + u
    }
}

/// A URL that already names its scheme is left as it is, so normalizing
/// twice gives what normalizing once does.
pub proof fn lemma_fix_url_idempotent(u: Seq<char>)
    ensures
        fix_url_spec(fix_url_spec(u)) == fix_url_spec(u),
{
    reveal_strlit("http://");
    let v = "http://"@ + u;
    assert(v.subrange(0, 7) =~= "http://"@);
}

/// `q` taken relative to the home directory `home`.
pub open spec fn home_relative_spec(home: Seq<char>, q: Seq<char>) -> Seq<char> {
    home + "/"@ + q
}

/// Command name and argument of a meta-command `q` (which starts with `:`):
/// the rest split at its first space, each part trimmed.
pub open spec fn command_parts(q: Seq<char>) -> (Seq<char>, Seq<char>) {
    let s = trim_spec(q.drop_first());
    let k = find_from(s, ' ', 0);
    if k < s.len() {
        (trim_spec(s.subrange(0, k)), trim_spec(s.subrange(k + 1, s.len() as int)))
    } else {
        (s, Seq::empty())
    }
}

/// Results that follow the fuzzy block: the path itself, the path under
/// home, the URL, then the web search that always closes the list.
pub open spec fn tail_results(
    q: Seq<char>,
    home: Seq<char>,
    path_exists: bool,
    home_path_exists: bool,
    host_found: bool,
) -> Seq<ResultView> {
    (if path_exists {
        seq![ResultView::File(q)]
    } else {
        Seq::empty()
    }) + (if home_path_exists {
        seq![ResultView::File(home_relative_spec(home, q))]
    } else {
        Seq::empty()
    }) + (if host_found {
        seq![ResultView::Url(fix_url_spec(q))]
    } else {
        Seq::empty()
    }) + seq![ResultView::Command("search"@, q)]
}

/// A delta that adds nothing.
pub open spec fn is_empty_delta(d: CacheView) -> bool {
    d.entries == Map::<Seq<char>, crate::entry::EntryView>::empty() && d.results == Map::<
        Seq<char>,
        Seq<ResultView>,
    >::empty()
}

pub fn fix_url(url: &str) -> (r: String)
    ensures
        r@ == fix_url_spec(url@),
{
    if !starts_with(url, "http://") && !starts_with(url, "https://") {
        return String::from_str("http://").concat(url);
    }
    String::from_str(url)
}

pub fn home_relative(home: &String, q: &String) -> (r: String)
    ensures
        r@ == home_relative_spec(home@, q@),
{
    home.clone().concat("/").concat(q.as_str())
}

/// Splits a meta-command into its name and argument.
pub fn split_command(q: &str) -> (r: (String, String))
    requires
        q@.len() >= 1,
    ensures
        (r.0@, r.1@) == command_parts(q@),
{
    let n = q.unicode_len();
    let rest = q.substring_char(1, n);
    assert(rest@ =~= q@.drop_first());
    let s = trim(rest);
    let len = s.as_str().unicode_len();
    let k = find_char(s.as_str(), ' ');
    if k < len {
        let cmd = trim(s.as_str().substring_char(0, k));
        let param = trim(s.as_str().substring_char(k + 1, len));
        (cmd, param)
    } else {
        (s, String::new())
    }
}

fn push_tail(
    results: &mut Vec<LauncherResult>,
    q: &String,
    home: &String,
    path_exists: bool,
    home_path_exists: bool,
    host_found: bool,
)
    ensures
        results_view(final(results)@) == results_view(old(results)@) + tail_results(
            q@,
            home@,
            path_exists,
            home_path_exists,
            host_found,
        ),
{
    let ghost start = results_view(results@);
    let ghost mut added: Seq<ResultView> = Seq::empty();
    if path_exists {
        results.push(LauncherResult::File(q.clone()));
        proof {
            added = added + seq![ResultView::File(q@)];
        }
    }
    assert(results_view(results@) =~= start + added);
    if home_path_exists {
        results.push(LauncherResult::File(home_relative(home, q)));
        proof {
            added = added + seq![ResultView::File(home_relative_spec(home@, q@))];
        }
    }
    assert(results_view(results@) =~= start + added);
    if host_found {
        results.push(LauncherResult::Url(fix_url(q.as_str())));
        proof {
            added = added + seq![ResultView::Url(fix_url_spec(q@))];
        }
    }
    assert(results_view(results@) =~= start + added);
    results.push(LauncherResult::Command(String::from_str("search"), q.clone()));
    proof {
        added = added + seq![ResultView::Command("search"@, q@)];
    }
    assert(results_view(results@) =~= start + added);
    assert(added =~= tail_results(q@, home@, path_exists, home_path_exists, host_found));
}

impl Query {
    pub fn new() -> (r: Query)
        ensures
            r@ == Seq::<char>::empty(),
    {
        Query(String::new())
    }

    pub fn from(s: &str) -> (r: Query)
        ensures
            r@ == s@,
    {
        Query(String::from_str(s))
    }

    /// The key under which the query is memoized: its text, trimmed.
    pub fn key(&self) -> (r: String)
        ensures
            r@ == trim_spec(self@),
    {
        trim(self.0.as_str())
    }

    /// Resolves the query against `cache` and returns only what is new: an
    /// empty delta for a blank or already memoized query, else a delta that
    /// memoizes the result list under the trimmed query. A meta-command
    /// (`:name argument`) resolves to its own list and nothing else; any
    /// other query gets the fuzzy block (short queries only), then the
    /// results that `probe` allows, then a web search.
    pub fn parse(&self, config: &Config, cache: Cache, locations: &Locations, probe: &Probe) -> (r:
        Cache)
        requires
            cache.wf(),
        ensures
            r.wf(),
            ({
                let q = trim_spec(self@);
                if q.len() == 0 || cache@.results.contains_key(q) {
                    is_empty_delta(r@)
                } else {
                    r@.entries == Map::<Seq<char>, crate::entry::EntryView>::empty()
                        && r@.results.dom() == set![q] && if has_prefix(q, ":"@) {
                        r@.results[q] == prerun_spec(
                            ResultView::Command(command_parts(q).0, command_parts(q).1),
                            locations.config_path@,
                        )
                    } else {
                        exists|fuzzy: Seq<ResultView>|
                            #![trigger fuzzy + tail_results(
                                q,
                                locations.home@,
                                probe.path_exists,
                                probe.home_path_exists,
                                probe.host_found,
                            )]
                            r@.results[q] == fuzzy + tail_results(
                                q,
                                locations.home@,
                                probe.path_exists,
                                probe.home_path_exists,
                                probe.host_found,
                            ) && if q.len() < SHORT_QUERY {
                                is_search_result(
                                    cache.entry_seq(),
                                    q,
                                    config.fuzzy_engine,
                                    probe.fuse_hits@.map_values(|h: Option<FuseHit>| hit_view(h)),
                                    config.results_len as int,
                                    fuzzy,
                                )
                            } else {
                                fuzzy.len() == 0
                            }
                    }
                }
            }),
    {
        let mut delta = Cache::new();
        let query = trim(self.0.as_str());
        let qlen = query.as_str().unicode_len();
        if qlen == 0 {
            return delta;
        }
        if cache.get_results(query.as_str()).is_some() {
            return delta;
        }
        if starts_with(query.as_str(), ":") {
            let (cmd, param) = split_command(query.as_str());
            let results = LauncherResult::Command(cmd, param).prerun_command(
                &locations.config_path,
            );
            delta.add_results(query.as_str(), results);
            proof {
                assert(delta@.results.dom() =~= set![query@]);
            }
            return delta;
        }
        let mut results: Vec<LauncherResult> = if qlen < SHORT_QUERY {
            cache.search(query.as_str(), config.fuzzy_engine, config.results_len, &probe.fuse_hits)
        } else {
            Vec::new()
        };
        let ghost fuzzy = results_view(results@);
        proof {
            if qlen >= SHORT_QUERY {
                assert(fuzzy =~= Seq::<ResultView>::empty());
            }
        }
        push_tail(
            &mut results,
            &query,
            &locations.home,
            probe.path_exists,
            probe.home_path_exists,
            probe.host_found,
        );
        delta.add_results(query.as_str(), results);
        proof {
            assert(delta@.results.dom() =~= set![query@]);
        }
        delta
    }
}

} // verus!

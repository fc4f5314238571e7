//! What launching a chosen result runs.

use vstd::prelude::*;
use crate::result::{LauncherResult, ResultView};
use crate::text::{same_text, starts_with};

verus! {

/// The address that `base` becomes once the pair `name=value` is appended
/// to its query, form-encoded; nothing where `base` is no valid URL.
pub uninterp spec fn url_with_pair(base: Seq<char>, name: Seq<char>, value: Seq<char>) -> Option<
    Seq<char>,
>;

/// Relies on url's `Url::parse` and on `query_pairs_mut().append_pair` of
/// the parsed URL: the result depends on the three strings alone.
#[verifier::external_body]
fn append_query_pair(base: &str, name: &str, value: &str) -> (r: Option<String>)
    ensures
        match r {
            Some(u) => url_with_pair(base@, name@, value@) == Some(u@),
            None => url_with_pair(base@, name@, value@) is None,
        },
{
    match url::Url::parse(base) {
        Ok(mut u) => {
            u.query_pairs_mut().append_pair(name, value);
            Some(u.as_str().to_string())
        },
        Err(_) => None,
    }
}

/// The lower-case form of a text.
pub uninterp spec fn lower_of(s: Seq<char>) -> Seq<char>;

/// Relies on std's `str::to_lowercase`: the result depends on the text alone.
#[verifier::external_body]
fn lowercase(s: &str) -> (r: String)
    ensures
        r@ == lower_of(s@),
{
    s.to_lowercase()
}

/// The address a web search starts from.
pub const SEARCH_BASE: &'static str = "https://www.google.com/search?";

/// A shell command line to run in place of the launcher, and whether the
/// launcher waits for a key press when it is still there afterwards.
#[derive(Debug)]
pub struct Launch {
    pub command: Option<String>,
    pub wait_after: bool,
}

#[derive(Debug, Clone, Copy, PartialEq, Eq, Structural)]
pub enum LaunchError {
    /// The web-search address could not be built.
    BadUrl,
}

/// `p` occurs in `s`.
pub open spec fn occurs_in(s: Seq<char>, p: Seq<char>) -> bool {
    exists|i: int| 0 <= i && i + p.len() <= s.len() && #[trigger] s.subrange(i, i + p.len()) == p
}

/// `open '<x>'`.
pub open spec fn open_line(x: Seq<char>) -> Seq<char> {
    "open '"@ + x + "'"@
}

pub open spec fn update_line(source_dir: Seq<char>) -> Seq<char> {
    "cd "@ + source_dir + " && git pull && cargo build --release"@
}

pub open spec fn edit_line(editor: Seq<char>, x: Seq<char>) -> Seq<char> {
    editor + " '"@ + x + "'"@
}

pub open spec fn launch_view(l: Launch) -> (Option<Seq<char>>, bool) {
    (
        match l.command {
            Some(c) => Some(c@),
            None => None,
        },
        l.wait_after,
    )
}

/// What a meta-command runs: `search` opens a web search for its argument,
/// `exec` runs the argument, `update` rebuilds the launcher from
/// `source_dir`, and any other command runs nothing.
pub open spec fn command_spec(cmd: Seq<char>, param: Seq<char>, source_dir: Seq<char>) -> Result<
    (Option<Seq<char>>, bool),
    LaunchError,
> {
    if cmd == "search"@ {
        match url_with_pair(SEARCH_BASE@, "q"@, param) {
            Some(u) => Ok((Some(open_line(u)), false)),
            None => Err(LaunchError::BadUrl),
        }
    } else if cmd == "exec"@ {
        Ok((Some(param), true))
    } else if cmd == "update"@ {
        Ok((Some(update_line(source_dir)), true))
    } else {
        Ok((None, false))
    }
}

/// What launching a result runs. Files that `textual` says hold text open
/// in `editor`; other files, URLs and applications go to `open`; an
/// executable runs itself.
pub open spec fn select_spec(
    r: ResultView,
    editor: Seq<char>,
    source_dir: Seq<char>,
    textual: bool,
) -> Result<(Option<Seq<char>>, bool), LaunchError> {
    match r {
        ResultView::Command(c, p) => command_spec(c, p, source_dir),
        ResultView::Url(u) => Ok((Some(open_line(u)), false)),
        ResultView::App(a) => Ok((Some(open_line(a)), false)),
        ResultView::Bin(b) => Ok((Some(b), true)),
        ResultView::File(f) => if textual {
            Ok((Some(edit_line(editor, f)), false))
        } else {
            Ok((Some(open_line(f)), false))
        },
    }
}

pub fn occurs(s: &str, p: &str) -> (r: bool)
    ensures
        r == occurs_in(s@, p@),
{
    let n = s.unicode_len();
    let m = p.unicode_len();
    if m > n {
        return false;
    }
    if m == 0 {
        assert(s@.subrange(0, 0 + p@.len() as int) =~= p@);
        return true;
    }
    let mut i: usize = 0;
    while i <= n - m
        invariant
            n == s@.len(),
            m == p@.len(),
            0 < m <= n,
            i <= n - m + 1,
            forall|k: int| 0 <= k < i ==> #[trigger] s@.subrange(k, k + m) != p@,
        decreases n - m + 1 - i,
    {
        let rest = s.substring_char(i, n);
        if starts_with(rest, p) {
            assert(rest@.subrange(0, m as int) =~= s@.subrange(i as int, i + m));
            return true;
        }
        assert(rest@.subrange(0, m as int) =~= s@.subrange(i as int, i + m));
        i = i + 1;
    }
    false
}

/// A lower-case file description names a text-like format.
pub fn names_text_format(lower: &str) -> (r: bool)
    ensures
        r == (occurs_in(lower@, "text"@) || occurs_in(lower@, "json"@) || occurs_in(lower@, "csv"@)),
{
    occurs(lower, "text") || occurs(lower, "json") || occurs(lower, "csv")
}

/// A file description, in any case, names a text-like format.
pub fn is_textual(description: &str) -> (r: bool)
    ensures
        r == (occurs_in(lower_of(description@), "text"@) || occurs_in(
            lower_of(description@),
            "json"@,
        ) || occurs_in(lower_of(description@), "csv"@)),
{
    let lower = lowercase(description);
    names_text_format(lower.as_str())
}

fn open_command(x: &String) -> (r: String)
    ensures
        r@ == open_line(x@),
{
    String::from_str("open '").concat(x.as_str()).concat("'")
}

pub fn run_command(cmd: &str, param: &str, source_dir: &String) -> (r: Result<Launch, LaunchError>)
    ensures
        match r {
            Ok(l) => command_spec(cmd@, param@, source_dir@) == Ok::<(Option<Seq<char>>, bool), LaunchError>(launch_view(l)),
            Err(e) => command_spec(cmd@, param@, source_dir@) == Err::<(Option<Seq<char>>, bool), LaunchError>(e),
        },
{
    if same_text(cmd, "search") {
        match append_query_pair(SEARCH_BASE, "q", param) {
            Some(u) => Ok(Launch { command: Some(open_command(&u)), wait_after: false }),
            None => Err(LaunchError::BadUrl),
        }
    } else if same_text(cmd, "exec") {
        Ok(Launch { command: Some(String::from_str(param)), wait_after: true })
    } else if same_text(cmd, "update") {
        let line = String::from_str("cd ").concat(source_dir.as_str()).concat(
            " && git pull && cargo build --release",
        );
        Ok(Launch { command: Some(line), wait_after: true })
    } else {
        Ok(Launch { command: None, wait_after: false })
    }
}

impl LauncherResult {
    /// The path of a file result, which is sniffed for its format before launch.
    pub fn file_path(&self) -> (r: Option<&String>)
        ensures
            match r {
                Some(p) => self@ == ResultView::File(p@),
                None => !(self@ is File),
            },
    {
        match self {
            LauncherResult::File(p) => Some(p),
            _ => None,
        }
    }

    /// What launching this result runs; `textual` tells whether a file
    /// result holds text.
    pub fn select(&self, editor: &String, source_dir: &String, textual: bool) -> (r: Result<
        Launch,
        LaunchError,
    >)
        ensures
            match r {
                Ok(l) => select_spec(self@, editor@, source_dir@, textual) == Ok::<(Option<Seq<char>>, bool), LaunchError>(launch_view(l)),
                Err(e) => select_spec(self@, editor@, source_dir@, textual) == Err::<(Option<Seq<char>>, bool), LaunchError>(e),
            },
    {
        match self {
            LauncherResult::Command(c, p) => run_command(c.as_str(), p.as_str(), source_dir),
            LauncherResult::Url(u) => Ok(Launch { command: Some(open_command(u)), wait_after: false }),
            LauncherResult::App(a) => Ok(Launch { command: Some(open_command(a)), wait_after: false }),
            LauncherResult::Bin(b) => Ok(Launch { command: Some(b.clone()), wait_after: true }),
            LauncherResult::File(f) => {
                if textual {
                    let line = editor.clone().concat(" '").concat(f.as_str()).concat("'");
                    Ok(Launch { command: Some(line), wait_after: false })
                } else {
                    Ok(Launch { command: Some(open_command(f)), wait_after: false })
                }
            },
        }
    }
}

} // verus!

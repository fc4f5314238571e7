//! Results offered to the user for a query.

use vstd::prelude::*;
use crate::text::same_text;

verus! {

#[derive(Debug, Clone)]
pub enum LauncherResult {
    Command(String, String),
    Url(String),
    App(String),
    Bin(String),
    File(String),
}

pub enum ResultView {
    Command(Seq<char>, Seq<char>),
    Url(Seq<char>),
    App(Seq<char>),
    Bin(Seq<char>),
    File(Seq<char>),
}

impl View for LauncherResult {
    type V = ResultView;

    open spec fn view(&self) -> ResultView {
        match self {
            LauncherResult::Command(c, p) => ResultView::Command(c@, p@),
            LauncherResult::Url(u) => ResultView::Url(u@),
            LauncherResult::App(a) => ResultView::App(a@),
            LauncherResult::Bin(b) => ResultView::Bin(b@),
            LauncherResult::File(f) => ResultView::File(f@),
        }
    }
}

pub open spec fn results_view(v: Seq<LauncherResult>) -> Seq<ResultView> {
    v.map_values(|r: LauncherResult| r@)
}

/// The line that shows a result: a tag of its kind, then its text.
pub open spec fn display_line(r: ResultView) -> Seq<char> {
    match r {
        ResultView::Command(c, p) => "Cmd  | :"@ + c + " "@ + p,
        ResultView::Url(u) => "Url  | "@ + u,
        ResultView::App(a) => "App  | "@ + a,
        ResultView::Bin(b) => "Bin  | "@ + b,
        ResultView::File(f) => "File | "@ + f,
    }
}

/// What a meta-command resolves to before it is offered: `find` to nothing,
/// `config` to the configuration file, any other command to itself.
pub open spec fn prerun_spec(r: ResultView, config_path: Seq<char>) -> Seq<ResultView> {
    match r {
        ResultView::Command(c, _) => if c == "find"@ {
            Seq::empty()
        } else if c == "config"@ {
            seq![ResultView::File(config_path)]
        } else {
            seq![r]
        },
        _ => seq![r],
    }
}

impl LauncherResult {
    pub fn duplicate(&self) -> (r: LauncherResult)
        ensures
            r@ == self@,
    {
        match self {
            LauncherResult::Command(c, p) => LauncherResult::Command(c.clone(), p.clone()),
            LauncherResult::Url(u) => LauncherResult::Url(u.clone()),
            LauncherResult::App(a) => LauncherResult::App(a.clone()),
            LauncherResult::Bin(b) => LauncherResult::Bin(b.clone()),
            LauncherResult::File(f) => LauncherResult::File(f.clone()),
        }
    }

    pub fn get_string(&self) -> (r: String)
        ensures
            r@ == display_line(self@),
    {
        match self {
            LauncherResult::Command(c, p) => String::from_str("Cmd  | :").concat(c.as_str()).concat(
                " ",
            ).concat(p.as_str()),
            LauncherResult::Url(u) => String::from_str("Url  | ").concat(u.as_str()),
            LauncherResult::App(a) => String::from_str("App  | ").concat(a.as_str()),
            LauncherResult::Bin(b) => String::from_str("Bin  | ").concat(b.as_str()),
            LauncherResult::File(f) => String::from_str("File | ").concat(f.as_str()),
        }
    }

    pub fn prerun_command(self, config_path: &String) -> (r: Vec<LauncherResult>)
        ensures
            results_view(r@) == prerun_spec(self@, config_path@),
    {
        let ghost me = self@;
        if let LauncherResult::Command(c, _) = &self {
            if same_text(c.as_str(), "find") {
                let v = Vec::new();
                assert(results_view(v@) =~= Seq::<ResultView>::empty());
                return v;
            } else if same_text(c.as_str(), "config") {
                let mut v = Vec::new();
                v.push(LauncherResult::File(config_path.clone()));
                assert(results_view(v@) =~= seq![ResultView::File(config_path@)]);
                return v;
            }
        }
        let mut v = Vec::new();
        v.push(self);
        assert(results_view(v@) =~= seq![me]);
        v
    }
}

} // verus!

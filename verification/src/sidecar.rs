//! Sidecar request/response shapes and client configuration. The
//! stateless yfinance fetcher is spawned per batch; this module holds the
//! plain values exchanged with it and the choice of which program to run.

use vstd::prelude::*;

use crate::text::{chars_of, eq_ignore_ascii_case, eq_ignore_ascii_case_spec};

verus! {

broadcast use vstd::string::group_string_axioms;

/// One fetch request item (`start=None` ⇒ full history).
#[derive(Debug, Clone, PartialEq)]
pub struct FetchRequestItem {
    pub symbol: String,
    pub interval: String,
    pub start: Option<i64>,
    pub end: Option<i64>,
}

pub type ItemView = (Seq<char>, Seq<char>, Option<i64>, Option<i64>);

impl View for FetchRequestItem {
    type V = ItemView;

    open spec fn view(&self) -> ItemView {
        (self.symbol@, self.interval@, self.start, self.end)
    }
}

/// A batched fetch request (multiple symbols × intervals in one process).
#[derive(Debug, Clone, PartialEq)]
pub struct FetchRequest {
    pub requests: Vec<FetchRequestItem>,
    pub auto_adjust: bool,
    pub output: String,
}

impl FetchRequest {
    /// A JSON batch request with `auto_adjust=true`, `output="json"`.
    pub fn json(requests: Vec<FetchRequestItem>) -> (r: FetchRequest)
        ensures
            r.requests == requests,
            r.auto_adjust,
            r.output@ == "json"@,
    {
        FetchRequest { requests, auto_adjust: true, output: "json".to_string() }
    }
}

/// A structured per-(symbol, interval) fetch failure reported by the sidecar.
#[derive(Debug, Clone, PartialEq)]
pub struct FetchErrorItem {
    pub symbol: String,
    pub interval: String,
    pub reason: String,
}

/// The program the client spawns, its arguments, and its working directory.
/// Dev runs the script via `uv`; release runs the bundled binary.
#[derive(Debug, Clone)]
pub struct SidecarClient {
    program: String,
    args: Vec<String>,
    cwd: Option<String>,
}

pub open spec fn strs_view(v: Seq<String>) -> Seq<Seq<char>> {
    v.map_values(|s: String| s@)
}

/// Arguments of the dev invocation: `uv run --project sidecar python
/// sidecar/fetch.py`.
pub open spec fn dev_args_spec() -> Seq<Seq<char>> {
    seq!["run"@, "--project"@, "sidecar"@, "python"@, "sidecar/fetch.py"@]
}

impl SidecarClient {
    pub closed spec fn program_spec(&self) -> Seq<char> {
        self.program@
    }

    pub closed spec fn args_spec(&self) -> Seq<Seq<char>> {
        strs_view(self.args@)
    }

    pub closed spec fn cwd_spec(&self) -> Option<Seq<char>> {
        match self.cwd {
            Some(c) => Some(c@),
            None => None,
        }
    }

    pub fn new(program: String, args: Vec<String>) -> (c: SidecarClient)
        ensures
            c.program_spec() == program@,
            c.args_spec() == strs_view(args@),
            c.cwd_spec() is None,
    {
        SidecarClient { program, args, cwd: None }
    }

    /// Dev client: run `sidecar/fetch.py` via uv from `repo_root`.
    pub fn dev_uv(repo_root: String) -> (c: SidecarClient)
        ensures
            c.program_spec() == "uv"@,
            c.args_spec() == dev_args_spec(),
            c.cwd_spec() == Some(repo_root@),
    {
        let args = vec![
            "run".to_string(),
            "--project".to_string(),
            "sidecar".to_string(),
            "python".to_string(),
            "sidecar/fetch.py".to_string(),
        ];
        let c = SidecarClient { program: "uv".to_string(), args, cwd: Some(repo_root) };
        proof {
            assert(strs_view(c.args@) =~= dev_args_spec());
        }
        c
    }

    /// The same client run from `cwd`.
    pub fn with_cwd(self, cwd: String) -> (c: SidecarClient)
        ensures
            c.program_spec() == self.program_spec(),
            c.args_spec() == self.args_spec(),
            c.cwd_spec() == Some(cwd@),
    {
        SidecarClient { program: self.program, args: self.args, cwd: Some(cwd) }
    }

    /// The production sidecar (a bundled `fetch` binary found next to the app
    /// executable) when there is one, else the dev script run via uv from
    /// `repo_root`.
    pub fn resolve(bundled: Option<String>, repo_root: String) -> (c: SidecarClient)
        ensures
            match bundled {
                Some(exe) => c.program_spec() == exe@ && c.args_spec().len() == 0 && c.cwd_spec() is None,
                None => c.program_spec() == "uv"@ && c.args_spec() == dev_args_spec()
                    && c.cwd_spec() == Some(repo_root@),
            },
    {
        match bundled {
            Some(exe) => {
                let c = SidecarClient::new(exe, Vec::new());
                c
            },
            None => SidecarClient::dev_uv(repo_root),
        }
    }

    pub fn program(&self) -> (p: &String)
        ensures
            p@ == self.program_spec(),
    {
        &self.program
    }

    pub fn args(&self) -> (a: &Vec<String>)
        ensures
            strs_view(a@) == self.args_spec(),
    {
        &self.args
    }

    pub fn cwd(&self) -> (c: &Option<String>)
        ensures
            match *c {
                Some(s) => self.cwd_spec() == Some(s@),
                None => self.cwd_spec() is None,
            },
    {
        &self.cwd
    }
}

/// Whether a file name is a bundled fetcher: `fetch`, `fetch.<ext>` or
/// `fetch-<target triple>...`, ignoring ASCII case.
pub open spec fn is_sidecar_name_spec(n: Seq<char>) -> bool {
    ||| eq_ignore_ascii_case_spec(n, "fetch"@)
    ||| (n.len() >= 6 && eq_ignore_ascii_case_spec(n.subrange(0, 6), "fetch."@))
    ||| (n.len() >= 6 && eq_ignore_ascii_case_spec(n.subrange(0, 6), "fetch-"@))
}

/// Whether `name` (a directory entry next to the app executable) names the
/// bundled fetcher: its ASCII-lowercase form is `fetch` or starts with
/// `fetch.` / `fetch-`.
pub fn is_sidecar_file_name(name: &str) -> (b: bool)
    ensures
        b == is_sidecar_name_spec(name@),
{
    let n = chars_of(name);
    let fetch = chars_of("fetch");
    if eq_ignore_ascii_case(&n, &fetch) {
        return true;
    }
    if n.len() < 6 {
        return false;
    }
    let mut head: Vec<char> = Vec::new();
    let mut i: usize = 0;
    while i < 6
        invariant
            n.len() >= 6,
            i <= 6,
            head@ =~= n@.subrange(0, i as int),
        decreases 6 - i,
    {
        head.push(n[i]);
        i = i + 1;
    }
    let dot = chars_of("fetch.");
    let dash = chars_of("fetch-");
    eq_ignore_ascii_case(&head, &dot) || eq_ignore_ascii_case(&head, &dash)
}

} // verus!

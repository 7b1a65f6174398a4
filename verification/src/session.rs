//! The interactive search session controller: the state of one front end
//! driving at most one in-flight search, the decisions it takes on user
//! input, and the transitions it makes when the background search reports
//! back through its one-shot channel.

use vstd::prelude::*;

use crate::roots::all_computer_roots;
use crate::search::SearchOutput;
use crate::text::{trim_of, trim_text};

verus! {

/// How many frames the busy spinner cycles through.
pub const SPINNER_STEPS: usize = 8;

/// Which input element of the front end currently has focus.
#[derive(Clone, Copy, PartialEq, Eq, Debug)]
pub enum Focus {
    Query,
    Root,
    Results,
}

/// What part of the filesystem a search covers: every top-level root of
/// the machine, or one user-supplied path.
pub enum SearchScope {
    WholeMachine,
    Rooted { path: String },
}

impl Clone for SearchScope {
    fn clone(&self) -> (res: Self)
        ensures
            res == *self,
    {
        match self {
            SearchScope::WholeMachine => SearchScope::WholeMachine,
            SearchScope::Rooted { path } => SearchScope::Rooted { path: path.clone() },
        }
    }
}

/// The user-visible state of the controller, rendered to text by the
/// front end.
pub enum Status {
    /// The greeting shown before any search has run.
    Welcome,
    /// A new search was rejected because one is already running.
    SearchInProgress,
    /// A search was rejected because the query was empty after trimming.
    EmptyQuery,
    /// A search was rejected because no valid root could be found.
    NoValidRoot,
    /// A search was accepted and handed to the background worker.
    SearchStarted,
    /// A search is running; the front end shows the spinner frame.
    Searching { spinner_idx: usize },
    /// A search finished with this many matches among this many scanned
    /// files under this scope.
    Done { matched: usize, scanned: usize, scope: SearchScope },
    /// The background worker vanished without delivering a result.
    Disconnected,
    /// A reveal request was rejected because a search is running.
    OpenWhileSearching,
    /// A reveal request was rejected because nothing is selected.
    NoSelection,
    /// A reveal request was rejected because the selection is out of
    /// range.
    SelectionInvalid,
    /// The platform file manager was opened at this path.
    Opened { path: String },
    /// Opening the platform file manager failed.
    OpenFailed { detail: String },
}

impl Clone for Status {
    fn clone(&self) -> (res: Self)
        ensures
            res == *self,
    {
        match self {
            Status::Welcome => Status::Welcome,
            Status::SearchInProgress => Status::SearchInProgress,
            Status::EmptyQuery => Status::EmptyQuery,
            Status::NoValidRoot => Status::NoValidRoot,
            Status::SearchStarted => Status::SearchStarted,
            Status::Searching { spinner_idx } => Status::Searching { spinner_idx: *spinner_idx },
            Status::Done { matched, scanned, scope } => Status::Done {
                matched: *matched,
                scanned: *scanned,
                scope: scope.clone(),
            },
            Status::Disconnected => Status::Disconnected,
            Status::OpenWhileSearching => Status::OpenWhileSearching,
            Status::NoSelection => Status::NoSelection,
            Status::SelectionInvalid => Status::SelectionInvalid,
            Status::Opened { path } => Status::Opened { path: path.clone() },
            Status::OpenFailed { detail } => Status::OpenFailed { detail: detail.clone() },
        }
    }
}

/// What the controller asks the front end to do after a start request.
pub enum StartDirective {
    /// Nothing to spawn: a search is already running.
    AlreadyRunning,
    /// Nothing to spawn: the query was empty after trimming.
    EmptyQuery,
    /// Nothing to spawn: no valid root was found.
    NoValidRoot,
    /// Spawn a background search of these roots for this trimmed query.
    Begin { query: String, roots: Vec<String>, scope: SearchScope },
}

/// What a non-blocking poll of the in-flight search observed.
pub enum PollOutcome {
    /// The channel held nothing yet.
    Pending,
    /// The channel delivered the finished output, with the scope the
    /// search was started under.
    Delivered { output: SearchOutput, scope: SearchScope },
    /// The sender was dropped without ever delivering.
    Disconnected,
}

/// What the controller asks the front end to do after a reveal request.
pub enum RevealDirective {
    /// Nothing to open: a search is running.
    Busy,
    /// Nothing to open: no entry is selected.
    NoSelection,
    /// Nothing to open: the selection is out of range.
    InvalidSelection,
    /// Reveal this path in the platform file manager.
    Open { path: String },
}

/// The state of the interactive session: the two text inputs, the focus,
/// the last status, the visible result list with its selection, and the
/// running flag of the at-most-one in-flight search.
pub struct App {
    pub query: String,
    pub root: String,
    pub focus: Focus,
    pub status: Status,
    pub results: Vec<String>,
    pub selected: Option<usize>,
    pub searching: bool,
    pub spinner_idx: usize,
}

impl App {
    /// The selection always points into the result list, nothing is
    /// selected in an empty list, and the spinner frame is in range.
    pub open spec fn wf(self) -> bool {
        &&& (self.selected matches Some(i) ==> i < self.results@.len())
        &&& (self.results@.len() == 0 ==> self.selected is None)
        &&& self.spinner_idx < SPINNER_STEPS
    }

    /// Everything but the status is the same in both states.
    pub open spec fn only_status_changed(pre: App, post: App) -> bool {
        &&& post.query == pre.query
        &&& post.root == pre.root
        &&& post.focus == pre.focus
        &&& post.results == pre.results
        &&& post.selected == pre.selected
        &&& post.searching == pre.searching
        &&& post.spinner_idx == pre.spinner_idx
    }
}

impl Default for App {
    /// A fresh session: empty inputs, focus on the query box, the
    /// greeting status, no results, no search running.
    fn default() -> (app: App)
        ensures
            app.wf(),
            app.query@.len() == 0,
            app.root@.len() == 0,
            app.focus is Query,
            app.status is Welcome,
            app.results@.len() == 0,
            app.selected is None,
            !app.searching,
            app.spinner_idx == 0,
    {
        App {
            query: String::new(),
            root: String::new(),
            focus: Focus::Query,
            status: Status::Welcome,
            results: Vec::new(),
            selected: None,
            searching: false,
            spinner_idx: 0,
        }
    }
}

impl App {
    /// Decide whether a search may start. A running search rejects the
    /// request; an empty-after-trimming query rejects it and leaves the
    /// result list as it was; otherwise the session becomes running and
    /// the front end is told which roots to search for which trimmed
    /// query: the supplied root path if one was given, else every root of
    /// the machine.
    pub fn start_search(&mut self) -> (d: StartDirective)
        requires
            old(self).wf(),
        ensures
            final(self).wf(),
            old(self).searching ==> {
                &&& d is AlreadyRunning
                &&& App::only_status_changed(*old(self), *final(self))
                &&& final(self).status is SearchInProgress
            },
            !old(self).searching && trim_of(old(self).query@).len() == 0 ==> {
                &&& d is EmptyQuery
                &&& App::only_status_changed(*old(self), *final(self))
                &&& final(self).status is EmptyQuery
            },
            !old(self).searching && trim_of(old(self).query@).len() > 0 ==> {
                let q = trim_of(old(self).query@);
                let rt = trim_of(old(self).root@);
                &&& final(self).query == old(self).query
                &&& final(self).root == old(self).root
                &&& final(self).focus == old(self).focus
                &&& final(self).results == old(self).results
                &&& final(self).selected == old(self).selected
                &&& final(self).searching
                &&& final(self).spinner_idx == 0
                &&& final(self).status is SearchStarted
                &&& (d matches StartDirective::Begin { query, roots, scope } && query@ == q
                    && roots@.len() == 1 && (rt.len() == 0 ==> roots@[0]@ == "/"@ && scope
                    is WholeMachine) && (rt.len() > 0 ==> roots@[0]@ == rt && (
                    scope matches SearchScope::Rooted { path } && path@ == rt)))
            },
    {
        if self.searching {
            self.status = Status::SearchInProgress;
            return StartDirective::AlreadyRunning;
        }
        let query_trimmed = String::from_str(trim_text(self.query.as_str()));
        if query_trimmed.as_str().is_empty() {
            self.status = Status::EmptyQuery;
            return StartDirective::EmptyQuery;
        }
        let root_trimmed = String::from_str(trim_text(self.root.as_str()));
        let roots: Vec<String>;
        let scope: SearchScope;
        if root_trimmed.as_str().is_empty() {
            roots = all_computer_roots();
            scope = SearchScope::WholeMachine;
        } else {
            let mut one: Vec<String> = Vec::new();
            one.push(root_trimmed.clone());
            roots = one;
            scope = SearchScope::Rooted { path: root_trimmed };
        }
        if roots.len() == 0 {
            self.status = Status::NoValidRoot;
            self.results.clear();
            self.selected = None;
            return StartDirective::NoValidRoot;
        }
        self.searching = true;
        self.spinner_idx = 0;
        self.status = Status::SearchStarted;
        StartDirective::Begin { query: query_trimmed, roots, scope }
    }

    /// Advance one front-end frame. Outside a running search nothing
    /// changes. During one, the spinner advances; a pending poll changes
    /// nothing else; a delivered result replaces the visible list,
    /// selects its first entry when there is one, reports the summary
    /// status and ends the running state; a disconnected worker ends the
    /// running state with a failure status and leaves the list as it was.
    pub fn tick(&mut self, poll: PollOutcome)
        requires
            old(self).wf(),
        ensures
            final(self).wf(),
            !old(self).searching ==> *final(self) == *old(self),
            old(self).searching ==> {
                &&& final(self).query == old(self).query
                &&& final(self).root == old(self).root
                &&& final(self).focus == old(self).focus
                &&& final(self).spinner_idx == (old(self).spinner_idx + 1) % (
                SPINNER_STEPS as int)
            },
            old(self).searching && poll is Pending ==> {
                &&& final(self).status == old(self).status
                &&& final(self).results == old(self).results
                &&& final(self).selected == old(self).selected
                &&& final(self).searching
            },
            old(self).searching ==> (poll matches PollOutcome::Delivered { output, scope } ==> {
                &&& final(self).results == output.matched
                &&& (output.matched@.len() == 0 ==> final(self).selected is None)
                &&& (output.matched@.len() > 0 ==> final(self).selected == Some(0usize))
                &&& final(self).status == (Status::Done {
                    matched: output.matched@.len() as usize,
                    scanned: output.scanned,
                    scope,
                })
                &&& !final(self).searching
            }),
            old(self).searching && poll is Disconnected ==> {
                &&& final(self).results == old(self).results
                &&& final(self).selected == old(self).selected
                &&& final(self).status is Disconnected
                &&& !final(self).searching
            },
    {
        if !self.searching {
            return ;
        }
        self.spinner_idx = (self.spinner_idx + 1) % SPINNER_STEPS;
        match poll {
            PollOutcome::Pending => {},
            PollOutcome::Delivered { output, scope } => {
                let SearchOutput { scanned, matched } = output;
                let count = matched.len();
                self.results = matched;
                if count == 0 {
                    self.selected = None;
                } else {
                    self.selected = Some(0);
                }
                self.status = Status::Done { matched: count, scanned, scope };
                self.searching = false;
            },
            PollOutcome::Disconnected => {
                self.searching = false;
                self.status = Status::Disconnected;
            },
        }
    }

    /// The status the front end renders this frame: the spinner while a
    /// search runs, else the last recorded status.
    pub fn status_line(&self) -> (s: Status)
        ensures
            self.searching ==> s == (Status::Searching { spinner_idx: self.spinner_idx }),
            !self.searching ==> s == self.status,
    {
        if self.searching {
            Status::Searching { spinner_idx: self.spinner_idx }
        } else {
            self.status.clone()
        }
    }

    /// Move the selection one entry down, holding at the last entry; an
    /// empty list keeps no selection.
    pub fn select_next(&mut self)
        requires
            old(self).wf(),
        ensures
            final(self).wf(),
            final(self).status == old(self).status,
            final(self).results == old(self).results,
            final(self).query == old(self).query,
            final(self).root == old(self).root,
            final(self).focus == old(self).focus,
            final(self).searching == old(self).searching,
            final(self).spinner_idx == old(self).spinner_idx,
            old(self).results@.len() == 0 ==> final(self).selected is None,
            old(self).results@.len() > 0 ==> {
                let i = if old(self).selected is Some {
                    old(self).selected->0
                } else {
                    0
                };
                final(self).selected == Some(
                    if i + 1 >= old(self).results@.len() {
                        i
                    } else {
                        (i + 1) as usize
                    },
                )
            },
    {
        if self.results.is_empty() {
            self.selected = None;
            return ;
        }
        let i = match self.selected {
            Some(i) => i,
            None => 0,
        };
        let n = self.results.len();
        proof {
            assert(i < n);
        }
        let next = if i + 1 >= n {
            i
        } else {
            i + 1
        };
        self.selected = Some(next);
    }

    /// Move the selection one entry up, holding at the first entry; an
    /// empty list keeps no selection.
    pub fn select_prev(&mut self)
        requires
            old(self).wf(),
        ensures
            final(self).wf(),
            final(self).status == old(self).status,
            final(self).results == old(self).results,
            final(self).query == old(self).query,
            final(self).root == old(self).root,
            final(self).focus == old(self).focus,
            final(self).searching == old(self).searching,
            final(self).spinner_idx == old(self).spinner_idx,
            old(self).results@.len() == 0 ==> final(self).selected is None,
            old(self).results@.len() > 0 ==> {
                let i = if old(self).selected is Some {
                    old(self).selected->0
                } else {
                    0
                };
                final(self).selected == Some(if i == 0 { 0usize } else { (i - 1) as usize })
            },
    {
        if self.results.is_empty() {
            self.selected = None;
            return ;
        }
        let i = match self.selected {
            Some(i) => i,
            None => 0,
        };
        let prev = if i == 0 {
            0
        } else {
            i - 1
        };
        self.selected = Some(prev);
    }

    /// Move the focus to the next input element, in a fixed cycle.
    pub fn cycle_focus(&mut self)
        ensures
            old(self).focus is Query ==> final(self).focus is Root,
            old(self).focus is Root ==> final(self).focus is Results,
            old(self).focus is Results ==> final(self).focus is Query,
            final(self).query == old(self).query,
            final(self).root == old(self).root,
            final(self).status == old(self).status,
            final(self).results == old(self).results,
            final(self).selected == old(self).selected,
            final(self).searching == old(self).searching,
            final(self).spinner_idx == old(self).spinner_idx,
    {
        self.focus = match self.focus {
            Focus::Query => Focus::Root,
            Focus::Root => Focus::Results,
            Focus::Results => Focus::Query,
        };
    }

    /// Decide whether the selected entry may be revealed in the platform
    /// file manager. A running search or an empty selection rejects the
    /// request with a status; otherwise the front end is handed the
    /// selected path and the status is left for `reveal_finished`.
    pub fn open_selected(&mut self) -> (d: RevealDirective)
        requires
            old(self).wf(),
        ensures
            final(self).wf(),
            final(self).results == old(self).results,
            final(self).selected == old(self).selected,
            final(self).searching == old(self).searching,
            final(self).query == old(self).query,
            final(self).root == old(self).root,
            final(self).focus == old(self).focus,
            final(self).spinner_idx == old(self).spinner_idx,
            old(self).searching ==> {
                &&& d is Busy
                &&& final(self).status is OpenWhileSearching
            },
            !old(self).searching && old(self).selected is None ==> {
                &&& d is NoSelection
                &&& final(self).status is NoSelection
            },
            !old(self).searching && old(self).selected is Some ==> {
                &&& final(self).status == old(self).status
                &&& (d matches RevealDirective::Open { path } && path@ == old(self).results@[
                    old(self).selected->0 as int
                ]@)
            },
    {
        if self.searching {
            self.status = Status::OpenWhileSearching;
            return RevealDirective::Busy;
        }
        let i = match self.selected {
            Some(i) => i,
            None => {
                self.status = Status::NoSelection;
                return RevealDirective::NoSelection;
            },
        };
        if i >= self.results.len() {
            self.status = Status::SelectionInvalid;
            return RevealDirective::InvalidSelection;
        }
        let path = self.results[i].clone();
        RevealDirective::Open { path }
    }

    /// Record how the reveal action ended: opened at the path, or failed
    /// with the reported detail.
    pub fn reveal_finished(&mut self, path: String, error: Option<String>)
        requires
            old(self).wf(),
        ensures
            final(self).wf(),
            App::only_status_changed(*old(self), *final(self)),
            error is None ==> final(self).status == (Status::Opened { path }),
            error matches Some(detail) ==> final(self).status == (Status::OpenFailed { detail }),
    {
        match error {
            None => {
                self.status = Status::Opened { path };
            },
            Some(detail) => {
                self.status = Status::OpenFailed { detail };
            },
        }
    }
}

} // verus!

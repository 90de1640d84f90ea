//! The state of the log viewer apart from its widgets: the loaded log, the
//! known list of log files, the graph switches and the open tab, and how
//! the results of finished requests change it.
use vstd::prelude::*;
use crate::entry::LogEntryView;
use crate::grabber::{files_view, FileSpecifier, FileSpecifierView};
use crate::graph::{plan_graphs, plan_spec, lines_view, markers_view, GraphPlan, GraphToggles};
use crate::loaded::{group_total, groups_correct, log_entries, log_loads, EntryGroupView, LoadedLog};

verus! {

/// What to do with a log once it has been downloaded.
#[derive(PartialEq, Eq, Structural, Clone, Copy, Debug)]
pub enum OnDownloadAction {
    Load,
    Save,
}

/// The tabs of the viewer.
#[derive(PartialEq, Eq, Structural, Clone, Copy, Debug)]
pub enum Tab {
    LogLoader,
    EventTimeline,
    GraphViewer,
    FieldViewer,
}

/// What the viewer holds: the loaded log (its records and their groups),
/// the known list of log files, the graph switches and the open tab.
pub struct LogViewerView {
    pub loaded_log: Option<(Seq<LogEntryView>, Seq<EntryGroupView>)>,
    pub log_list: Option<Seq<FileSpecifierView>>,
    pub enabled_graphs: Map<Seq<char>, bool>,
    pub tab: Tab,
}

/// The loaded log is the one read from `text`.
pub open spec fn loaded_from(loaded: Option<(Seq<LogEntryView>, Seq<EntryGroupView>)>, text: Seq<char>) -> bool {
    &&& loaded matches Some(l)
    &&& l.0 == log_entries(text)
    &&& groups_correct(l.1, l.0)
    &&& group_total(l.1) == l.0.len()
}

/// The state of the log viewer.
pub struct LogViewer {
    loaded_log: Option<LoadedLog>,
    log_list: Option<Vec<FileSpecifier>>,
    enabled_graphs: GraphToggles,
    tab: Tab,
}

impl View for LogViewer {
    type V = LogViewerView;

    closed spec fn view(&self) -> LogViewerView {
        LogViewerView {
            loaded_log: match self.loaded_log {
                Some(l) => Some(l@),
                None => None,
            },
            log_list: match self.log_list {
                Some(l) => Some(files_view(l@)),
                None => None,
            },
            enabled_graphs: self.enabled_graphs@,
            tab: self.tab,
        }
    }
}

impl LogViewer {
    /// A viewer on the log loader tab, with nothing loaded or listed and no
    /// graph switches.
    pub fn new() -> (r: LogViewer)
        ensures
            r@.loaded_log is None,
            r@.log_list is None,
            r@.enabled_graphs == Map::<Seq<char>, bool>::empty(),
            r@.tab == Tab::LogLoader,
    {
        LogViewer { loaded_log: None, log_list: None, enabled_graphs: GraphToggles::new(), tab: Tab::LogLoader }
    }

    /// Loads the log `log`, in place of any loaded before.
    pub fn load_log(&mut self, log: &str)
        requires
            log_loads(log@),
        ensures
            loaded_from(final(self)@.loaded_log, log@),
            final(self)@.log_list == old(self)@.log_list,
            final(self)@.enabled_graphs == old(self)@.enabled_graphs,
            final(self)@.tab == old(self)@.tab,
    {
        let loaded = LoadedLog::from_text(log);
        self.loaded_log = Some(loaded);
    }

    /// Takes in the results of the requests that have finished since the
    /// last frame: a log read from a file, a log downloaded from the robot,
    /// a list of the robot's logs, and whether a delete went through. A
    /// downloaded log is loaded over one read from a file; a new list
    /// replaces the known one, and a successful delete forgets the list so
    /// that it is asked for again.
    pub fn logic(
        &mut self,
        uploaded: Option<String>,
        downloaded: Option<String>,
        listed: Option<Vec<FileSpecifier>>,
        deleted: Option<bool>,
    )
        requires
            uploaded matches Some(u) ==> log_loads(u@),
            downloaded matches Some(d) ==> log_loads(d@),
        ensures
            match (uploaded, downloaded) {
                (_, Some(d)) => loaded_from(final(self)@.loaded_log, d@),
                (Some(u), None) => loaded_from(final(self)@.loaded_log, u@),
                (None, None) => final(self)@.loaded_log == old(self)@.loaded_log,
            },
            final(self)@.log_list == (if deleted == Some(true) {
                None
            } else {
                match listed {
                    Some(l) => Some(files_view(l@)),
                    None => old(self)@.log_list,
                }
            }),
            final(self)@.enabled_graphs == old(self)@.enabled_graphs,
            final(self)@.tab == old(self)@.tab,
    {
        match uploaded {
            Some(u) => self.load_log(u.as_str()),
            None => {},
        }
        match downloaded {
            Some(d) => self.load_log(d.as_str()),
            None => {},
        }
        match listed {
            Some(l) => {
                self.log_list = Some(l);
            },
            None => {},
        }
        match deleted {
            Some(true) => {
                self.log_list = None;
            },
            _ => {},
        }
    }

    /// Opens a tab.
    pub fn select_tab(&mut self, tab: Tab)
        ensures
            final(self)@.tab == tab,
            final(self)@.loaded_log == old(self)@.loaded_log,
            final(self)@.log_list == old(self)@.log_list,
            final(self)@.enabled_graphs == old(self)@.enabled_graphs,
    {
        self.tab = tab;
    }

    /// The open tab.
    pub fn tab(&self) -> (r: Tab)
        ensures
            r == self@.tab,
    {
        self.tab
    }

    /// Whether `tab` is the open one, so that its button shows as selected.
    pub fn is_selected(&self, tab: Tab) -> (r: bool)
        ensures
            r == (self@.tab == tab),
    {
        self.tab == tab
    }

    /// The loaded log, if any.
    pub fn loaded_log(&self) -> (r: Option<&LoadedLog>)
        ensures
            match r {
                Some(l) => self@.loaded_log == Some(l@),
                None => self@.loaded_log is None,
            },
    {
        match &self.loaded_log {
            Some(l) => Some(l),
            None => None,
        }
    }

    /// The known list of log files, if any.
    pub fn log_list(&self) -> (r: Option<&Vec<FileSpecifier>>)
        ensures
            match r {
                Some(l) => self@.log_list == Some(files_view(l@)),
                None => self@.log_list is None,
            },
    {
        match &self.log_list {
            Some(l) => Some(l),
            None => None,
        }
    }

    /// The graph switches.
    pub fn enabled_graphs(&self) -> (r: &GraphToggles)
        ensures
            r@ == self@.enabled_graphs,
    {
        &self.enabled_graphs
    }

    /// Turns the graph of `name` on or off.
    pub fn set_graph_enabled(&mut self, name: &String, on: bool)
        ensures
            final(self)@.enabled_graphs == old(self)@.enabled_graphs.insert(name@, on),
            final(self)@.loaded_log == old(self)@.loaded_log,
            final(self)@.log_list == old(self)@.log_list,
            final(self)@.tab == old(self)@.tab,
    {
        self.enabled_graphs.set(name, on);
    }

    /// What to draw of the loaded log, if one is loaded; plotted names that
    /// have no switch get one that is off.
    pub fn plan_graphs(&mut self) -> (r: Option<GraphPlan>)
        ensures
            match old(self)@.loaded_log {
                Some(l) => r matches Some(p) && (lines_view(p.lines@), markers_view(p.markers@), final(self)@.enabled_graphs)
                    == plan_spec(l.1, old(self)@.enabled_graphs),
                None => r is None && final(self)@.enabled_graphs == old(self)@.enabled_graphs,
            },
            final(self)@.loaded_log == old(self)@.loaded_log,
            final(self)@.log_list == old(self)@.log_list,
            final(self)@.tab == old(self)@.tab,
    {
        match &self.loaded_log {
            Some(l) => Some(plan_graphs(l.groups(), &mut self.enabled_graphs)),
            None => None,
        }
    }
}

} // verus!

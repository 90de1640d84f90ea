//! What is kept of the logs on the robot: a cache of log texts by name and
//! the last list of log files, and the reading of a delete reply.
use vstd::prelude::*;
use crate::assoc::{find_name, lemma_pairs_map, lemma_pairs_push, lemma_pairs_update, names_distinct, pairs_map};

verus! {

/// A log file on the robot: its name and size in bytes.
pub struct FileSpecifierView {
    pub name: Seq<char>,
    pub size: u64,
}

/// A log file on the robot.
pub struct FileSpecifier {
    pub name: String,
    pub size: u64,
}

impl View for FileSpecifier {
    type V = FileSpecifierView;

    open spec fn view(&self) -> FileSpecifierView {
        FileSpecifierView { name: self.name@, size: self.size }
    }
}

impl FileSpecifier {
    /// A copy of the file description.
    pub fn duplicate(&self) -> (r: FileSpecifier)
        ensures
            r@ == self@,
    {
        FileSpecifier { name: self.name.clone(), size: self.size }
    }
}

pub open spec fn files_view(v: Seq<FileSpecifier>) -> Seq<FileSpecifierView> {
    v.map_values(|f: FileSpecifier| f@)
}

/// A copy of a list of file descriptions.
pub fn copy_files(v: &Vec<FileSpecifier>) -> (r: Vec<FileSpecifier>)
    ensures
        files_view(r@) == files_view(v@),
{
    let mut r: Vec<FileSpecifier> = Vec::new();
    let mut i: usize = 0;
    while i < v.len()
        invariant
            i <= v@.len(),
            files_view(r@) == files_view(v@.take(i as int)),
        decreases v@.len() - i,
    {
        let ghost before = r@;
        let f = v[i].duplicate();
        r.push(f);
        assert(r@ =~= before.push(f));
        assert(v@.take(i + 1) =~= v@.take(i as int).push(v@[i as int]));
        assert(files_view(r@) =~= files_view(before).push(f@));
        assert(files_view(v@.take(i + 1)) =~= files_view(v@.take(i as int)).push(v@[i as int]@));
        assert(files_view(r@) =~= files_view(v@.take(i + 1)));
        i = i + 1;
    }
    assert(v@.take(v@.len() as int) =~= v@);
    r
}

/// The reply of the robot to a request to delete a log.
pub enum DeleteResult {
    Success { success: bool },
    Error { error: String },
}

impl DeleteResult {
    /// Whether the reply counts as a deletion: any `Success` reply does,
    /// whatever its flag says.
    pub fn succeeded(&self) -> (r: bool)
        ensures
            r == (self is Success),
    {
        match self {
            DeleteResult::Success { .. } => true,
            DeleteResult::Error { .. } => false,
        }
    }
}

pub open spec fn text_pairs_view(v: Seq<(String, String)>) -> Seq<(Seq<char>, Seq<char>)> {
    v.map_values(|p: (String, String)| (p.0@, p.1@))
}

/// What the grabber keeps: the cached log texts by name, and the cached
/// list of log files, if any.
pub struct LogGrabberView {
    pub cache: Map<Seq<char>, Seq<char>>,
    pub list: Option<Seq<FileSpecifierView>>,
}

/// The caches kept beside the connection to the robot.
pub struct LogGrabber {
    cache: Vec<(String, String)>,
    list: Option<Vec<FileSpecifier>>,
}

impl View for LogGrabber {
    type V = LogGrabberView;

    closed spec fn view(&self) -> LogGrabberView {
        LogGrabberView {
            cache: pairs_map(text_pairs_view(self.cache@)),
            list: match self.list {
                Some(l) => Some(files_view(l@)),
                None => None,
            },
        }
    }
}

impl LogGrabber {
    #[verifier::type_invariant]
    spec fn well_formed(self) -> bool {
        names_distinct(text_pairs_view(self.cache@))
    }

    /// Empty caches.
    pub fn new() -> (r: LogGrabber)
        ensures
            r@.cache == Map::<Seq<char>, Seq<char>>::empty(),
            r@.list is None,
    {
        let r = LogGrabber { cache: Vec::new(), list: None };
        assert(text_pairs_view(r.cache@) =~= Seq::<(Seq<char>, Seq<char>)>::empty());
        r
    }

    /// Forgets every cached log text and the cached list.
    pub fn clear_caches(&mut self)
        ensures
            final(self)@.cache == Map::<Seq<char>, Seq<char>>::empty(),
            final(self)@.list is None,
    {
        self.cache = Vec::new();
        self.list = None;
        assert(text_pairs_view(self.cache@) =~= Seq::<(Seq<char>, Seq<char>)>::empty());
    }

    /// Keeps `data` as the text of the log named `log_name`, in place of any
    /// text kept for it before.
    pub fn cache_log(&mut self, log_name: String, data: String)
        ensures
            final(self)@.cache == old(self)@.cache.insert(log_name@, data@),
            final(self)@.list == old(self)@.list,
    {
        proof {
            use_type_invariant(&*self);
        }
        let ghost old_pairs = text_pairs_view(self.cache@);
        let mut pairs: Vec<(String, String)> = Vec::new();
        std::mem::swap(&mut pairs, &mut self.cache);
        match find_name(&pairs, &log_name) {
            Some(i) => {
                pairs.set(i, (log_name, data));
                proof {
                    assert(text_pairs_view(pairs@) =~= old_pairs.update(i as int, (old_pairs[i as int].0, data@)));
                    lemma_pairs_update(old_pairs, i as int, data@);
                }
            },
            None => {
                pairs.push((log_name, data));
                proof {
                    assert(text_pairs_view(pairs@) =~= old_pairs.push((log_name@, data@)));
                    lemma_pairs_push(old_pairs, log_name@, data@);
                }
            },
        }
        self.cache = pairs;
    }

    /// Keeps `list` as the list of log files.
    pub fn cache_list(&mut self, list: Vec<FileSpecifier>, data: String)
        ensures
            final(self)@.list == Some(files_view(list@)),
            final(self)@.cache == old(self)@.cache,
    {
        proof {
            use_type_invariant(&*self);
        }
        self.list = Some(list);
    }

    /// The text kept for the log named `log_name`, if any.
    pub fn cached_log(&self, log_name: &String) -> (r: Option<String>)
        ensures
            match r {
                Some(s) => self@.cache.contains_key(log_name@) && s@ == self@.cache[log_name@],
                None => !self@.cache.contains_key(log_name@),
            },
    {
        proof {
            use_type_invariant(self);
            lemma_pairs_map(text_pairs_view(self.cache@));
        }
        match find_name(&self.cache, log_name) {
            Some(i) => {
                assert(text_pairs_view(self.cache@)[i as int].0 == log_name@);
                Some(self.cache[i].1.clone())
            },
            None => {
                assert(!self@.cache.contains_key(log_name@)) by {
                    if self@.cache.contains_key(log_name@) {
                        let k = choose|k: int| 0 <= k < text_pairs_view(self.cache@).len() && text_pairs_view(self.cache@)[k].0 == log_name@;
                        assert(self.cache@[k].0@ == log_name@);
                    }
                }
                None
            },
        }
    }

    /// A copy of the kept list of log files, if any.
    pub fn cached_list(&self) -> (r: Option<Vec<FileSpecifier>>)
        ensures
            match r {
                Some(l) => self@.list == Some(files_view(l@)),
                None => self@.list is None,
            },
    {
        match &self.list {
            Some(l) => Some(copy_files(l)),
            None => None,
        }
    }
}

/// The cache gives back what was last kept for a name: after keeping `data`
/// for `name`, reading `name` gives `data`, and reading any other name gives
/// what it gave before.
pub proof fn law_cache_read_after_write(
    cache: Map<Seq<char>, Seq<char>>,
    name: Seq<char>,
    data: Seq<char>,
    other: Seq<char>,
)
    ensures
        cache.insert(name, data).contains_key(name),
        cache.insert(name, data)[name] == data,
        other != name ==> (cache.insert(name, data).contains_key(other) == cache.contains_key(other)),
        other != name && cache.contains_key(other) ==> cache.insert(name, data)[other] == cache[other],
{
}

} // verus!

//! What is known of the file system, and how a search asks for more.
//!
//! Nothing in this library touches the disk. A search is a function of a
//! [`Disk`], the record of what was observed so far. Where the record does
//! not yet settle the result, the search answers with the one observation it
//! needs next; its caller makes that observation, records it and asks again.

use vstd::prelude::*;

verus! {

/// An observation that a search needs.
#[derive(Debug, Clone, PartialEq, Eq)]
pub enum Query {
    /// Is there anything at this path?
    Exists(String),
    /// What text does the file at this path hold?
    Read(String),
}

/// A [`Query`] as contracts see it.
pub enum QueryView {
    Exists(Seq<char>),
    Read(Seq<char>),
}

impl DeepView for Query {
    type V = QueryView;

    open spec fn deep_view(&self) -> QueryView {
        match self {
            Query::Exists(path) => QueryView::Exists(path@),
            Query::Read(path) => QueryView::Read(path@),
        }
    }
}

/// What a search answers: its result, or the observation it needs first.
#[derive(Debug, Clone, PartialEq, Eq)]
pub enum Lookup<T> {
    Done(T),
    Needs(Query),
}

/// A [`Lookup`] as contracts see it.
pub enum LookupView<V> {
    Done(V),
    Needs(QueryView),
}

impl<T: DeepView> DeepView for Lookup<T> {
    type V = LookupView<T::V>;

    open spec fn deep_view(&self) -> LookupView<T::V> {
        match self {
            Lookup::Done(value) => LookupView::Done(value.deep_view()),
            Lookup::Needs(query) => LookupView::Needs(query.deep_view()),
        }
    }
}

/// What was observed of the file system.
pub struct Disk {
    existence: Vec<(String, bool)>,
    contents: Vec<(String, Result<String, String>)>,
}

/// A [`Disk`] as contracts see it.
pub struct DiskView {
    /// For each path that was probed: whether something was there.
    pub existence: Map<Seq<char>, bool>,
    /// For each path that was read: the text of the file, or why it could not
    /// be read as text.
    pub contents: Map<Seq<char>, Result<Seq<char>, Seq<char>>>,
}

impl DiskView {
    /// Whether something is at `path`, as far as it was observed.
    pub open spec fn present(self, path: Seq<char>) -> Option<bool> {
        if self.existence.contains_key(path) {
            Some(self.existence[path])
        } else {
            None
        }
    }

    /// The text of the file at `path`, as far as it was observed.
    pub open spec fn read(self, path: Seq<char>) -> Option<Result<Seq<char>, Seq<char>>> {
        if self.contents.contains_key(path) {
            Some(self.contents[path])
        } else {
            None
        }
    }

    /// Whether this record holds every observation of `earlier`, unchanged.
    pub open spec fn extends(self, earlier: DiskView) -> bool {
        &&& forall|path: Seq<char>| #[trigger]
            earlier.existence.contains_key(path) ==> self.existence.contains_key(path)
                && self.existence[path] == earlier.existence[path]
        &&& forall|path: Seq<char>| #[trigger]
            earlier.contents.contains_key(path) ==> self.contents.contains_key(path)
                && self.contents[path] == earlier.contents[path]
    }
}

/// What was read of a file, as contracts see it.
pub open spec fn reading_view(reading: Result<String, String>) -> Result<Seq<char>, Seq<char>> {
    match reading {
        Ok(text) => Ok(text@),
        Err(detail) => Err(detail@),
    }
}

/// Whether a search that answered `outcome` on `disk` is on its way: a
/// result stands, an observation that it asks for is one that `disk` does not
/// hold yet.
pub open spec fn asks_anew<V>(disk: DiskView, outcome: LookupView<V>) -> bool {
    match outcome {
        LookupView::Done(_) => true,
        LookupView::Needs(QueryView::Exists(path)) => disk.present(path) is None,
        LookupView::Needs(QueryView::Read(path)) => disk.read(path) is None,
    }
}

/// Whether `later` keeps what `earlier` settled: a result that was given
/// stays the result.
pub open spec fn settled<V>(earlier: LookupView<V>, later: LookupView<V>) -> bool {
    earlier is Done ==> later == earlier
}

/// The mapping that a list of observations stands for: of two observations
/// of one path, the later counts.
spec fn recorded<V>(log: Seq<(Seq<char>, V)>) -> Map<Seq<char>, V>
    decreases log.len(),
{
    if log.len() == 0 {
        Map::empty()
    } else {
        recorded(log.drop_last()).insert(log.last().0, log.last().1)
    }
}

/// The probes of a record as a list of observations.
spec fn existence_log(log: Seq<(String, bool)>) -> Seq<(Seq<char>, bool)> {
    Seq::new(log.len(), |i: int| (log[i].0@, log[i].1))
}

/// The readings of a record as a list of observations.
spec fn contents_log(log: Seq<(String, Result<String, String>)>) -> Seq<
    (Seq<char>, Result<Seq<char>, Seq<char>>),
> {
    Seq::new(log.len(), |i: int| (log[i].0@, reading_view(log[i].1)))
}

/// The entry of `recorded(log)` for `path` is that of the last observation of
/// `path` in `log`.
proof fn lemma_recorded_last<V>(log: Seq<(Seq<char>, V)>, path: Seq<char>, i: int)
    requires
        0 <= i <= log.len(),
        forall|j: int| i <= j < log.len() ==> (#[trigger] log[j]).0 != path,
    ensures
        recorded(log).contains_key(path) == recorded(log.take(i)).contains_key(path),
        recorded(log).contains_key(path) ==> recorded(log)[path] == recorded(log.take(i))[path],
        i > 0 && log[i - 1].0 == path ==> recorded(log).contains_key(path) && recorded(log)[path]
            == log[i - 1].1,
    decreases log.len() - i,
{
    if i == log.len() {
        assert(log.take(i) =~= log);
    } else {
        lemma_recorded_last(log, path, i + 1);
        assert(log.take(i + 1).drop_last() =~= log.take(i));
        assert(log.take(i + 1).last() == log[i]);
    }
    if i > 0 {
        assert(log.take(i).last() == log[i - 1]);
    }
}

impl View for Disk {
    type V = DiskView;

    /// What the record holds: of each path its last observation.
    closed spec fn view(&self) -> DiskView {
        DiskView {
            existence: recorded(existence_log(self.existence@)),
            contents: recorded(contents_log(self.contents@)),
        }
    }
}

impl Disk {
    /// A record without observations.
    pub fn new() -> (r: Disk)
        ensures
            r@.existence == Map::<Seq<char>, bool>::empty(),
            r@.contents == Map::<Seq<char>, Result<Seq<char>, Seq<char>>>::empty(),
    {
        Disk { existence: Vec::new(), contents: Vec::new() }
    }

    /// Records whether something was found at `path`.
    pub fn record_existence(&mut self, path: String, exists: bool)
        ensures
            final(self)@.existence == old(self)@.existence.insert(path@, exists),
            final(self)@.contents == old(self)@.contents,
            old(self)@.present(path@) is None ==> final(self)@.extends(old(self)@),
    {
        let ghost before = existence_log(self.existence@);
        self.existence.push((path, exists));
        proof {
            let after = existence_log(self.existence@);
            assert(after.drop_last() =~= before);
        }
    }

    /// Records what was read at `path`: the text, or why the file could not
    /// be read as text.
    pub fn record_content(&mut self, path: String, content: Result<String, String>)
        ensures
            final(self)@.contents == old(self)@.contents.insert(path@, reading_view(content)),
            final(self)@.existence == old(self)@.existence,
            old(self)@.read(path@) is None ==> final(self)@.extends(old(self)@),
    {
        let ghost before = contents_log(self.contents@);
        self.contents.push((path, content));
        proof {
            let after = contents_log(self.contents@);
            assert(after.drop_last() =~= before);
        }
    }

    /// Whether something is at `path`, as far as it was observed.
    pub fn present(&self, path: &str) -> (r: Option<bool>)
        ensures
            r == self@.present(path@),
    {
        let wanted = String::from_str(path);
        let ghost log = existence_log(self.existence@);
        let mut i: usize = self.existence.len();
        while i > 0
            invariant
                i <= self.existence@.len(),
                log == existence_log(self.existence@),
                wanted@ == path@,
                forall|j: int| i <= j < log.len() ==> (#[trigger] log[j]).0 != path@,
            decreases i,
        {
            i = i - 1;
            if self.existence[i].0 == wanted {
                proof {
                    lemma_recorded_last(log, path@, i + 1);
                }
                return Some(self.existence[i].1);
            }
        }
        proof {
            lemma_recorded_last(log, path@, 0);
        }
        None
    }

    /// The text of the file at `path`, as far as it was observed.
    pub fn read(&self, path: &str) -> (r: Option<&Result<String, String>>)
        ensures
            match r {
                Some(reading) => self@.read(path@) == Some(reading_view(*reading)),
                None => self@.read(path@) is None,
            },
    {
        let wanted = String::from_str(path);
        let ghost log = contents_log(self.contents@);
        let mut i: usize = self.contents.len();
        while i > 0
            invariant
                i <= self.contents@.len(),
                log == contents_log(self.contents@),
                wanted@ == path@,
                forall|j: int| i <= j < log.len() ==> (#[trigger] log[j]).0 != path@,
            decreases i,
        {
            i = i - 1;
            if self.contents[i].0 == wanted {
                proof {
                    lemma_recorded_last(log, path@, i + 1);
                }
                return Some(&self.contents[i].1);
            }
        }
        proof {
            lemma_recorded_last(log, path@, 0);
        }
        None
    }
}

/// Whether something is at `path`, or the probe that will tell.
pub open spec fn presence(disk: DiskView, path: Seq<char>) -> LookupView<bool> {
    match disk.present(path) {
        Some(found) => LookupView::Done(found),
        None => LookupView::Needs(QueryView::Exists(path)),
    }
}

/// Whether something is at `path`, or the probe that will tell.
pub fn probe(disk: &Disk, path: &str) -> (r: Lookup<bool>)
    ensures
        r.deep_view() == presence(disk@, path@),
{
    match disk.present(path) {
        Some(found) => Lookup::Done(found),
        None => Lookup::Needs(Query::Exists(String::from_str(path))),
    }
}

} // verus!

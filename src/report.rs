//! The census of a scanned tree, built one visited node at a time.

use vstd::prelude::*;
use crate::counts::{bump, lemma_bump_sum, sum_counts, CountMap, Tally};
use crate::sniff::{content_label, content_type};
use crate::text::{extension, extension_of};

verus! {

/// A node that could not be fully processed, and why.
#[derive(Debug)]
pub struct ScanError {
    pub path: String,
    pub message: String,
}

/// One node met under the scanned root, with what reading it gave.
pub enum Visit {
    /// A directory.
    Folder { path: String },
    /// A regular file: its name, and its size and leading bytes, or why each
    /// could not be read.
    File { path: String, name: String, size: Result<u64, String>, head: Result<Vec<u8>, String> },
    /// A node that the walk itself could not read.
    Failed { path: String, message: String },
}

/// The model of a report.
pub struct Census {
    pub extensions: Seq<Tally>,
    pub mimetypes: Seq<Tally>,
    pub folders: Seq<Seq<char>>,
    pub size: nat,
    pub errors: Seq<(Seq<char>, Seq<char>)>,
}

/// The visit is a regular file whose size and content were both read.
pub open spec fn is_processed(v: Visit) -> bool {
    match v {
        Visit::File { size, head, .. } => size is Ok && head is Ok,
        _ => false,
    }
}

/// The visit is a directory.
pub open spec fn is_folder(v: Visit) -> bool {
    v is Folder
}

/// The visit could not be fully processed: the walk failed on it, or its
/// size or content could not be read.
pub open spec fn is_failure(v: Visit) -> bool {
    match v {
        Visit::Failed { .. } => true,
        Visit::File { size, head, .. } => size is Err || head is Err,
        _ => false,
    }
}

/// The size that a processed file adds to the total.
pub open spec fn added_size(v: Visit) -> nat {
    match v {
        Visit::File { size: Ok(n), head: Ok(_), .. } => n as nat,
        _ => 0,
    }
}

impl Census {
    /// Nothing seen yet.
    pub open spec fn empty() -> Census {
        Census {
            extensions: Seq::empty(),
            mimetypes: Seq::empty(),
            folders: Seq::empty(),
            size: 0,
            errors: Seq::empty(),
        }
    }

    /// The census with one more error listed.
    pub open spec fn with_error(self, path: Seq<char>, message: Seq<char>) -> Census {
        Census { errors: self.errors.push((path, message)), ..self }
    }

    /// The census after one more visit: a folder is listed; a processed file
    /// is counted by extension and by content type and adds its size; any
    /// failure is listed as an error and changes nothing else.
    pub open spec fn step(self, v: Visit) -> Census {
        match v {
            Visit::Folder { path } => Census { folders: self.folders.push(path@), ..self },
            Visit::File { path, name, size, head } => match size {
                Err(m) => Census { errors: self.errors.push((path@, m@)), ..self },
                Ok(n) => match head {
                    Err(m) => Census { errors: self.errors.push((path@, m@)), ..self },
                    Ok(h) => Census {
                        extensions: bump(self.extensions, extension(name@)),
                        mimetypes: bump(self.mimetypes, content_label(h@)),
                        size: self.size + n as nat,
                        ..self
                    },
                },
            },
            Visit::Failed { path, message } => Census {
                errors: self.errors.push((path@, message@)),
                ..self
            },
        }
    }
}

/// The census after the visits `vs`, in order, from an empty one.
pub open spec fn census_after(vs: Seq<Visit>) -> Census
    decreases vs.len(),
{
    if vs.len() == 0 {
        Census::empty()
    } else {
        census_after(vs.drop_last()).step(vs.last())
    }
}

/// Recording one more visit moves a report from the census of the visits so
/// far to that of the visits with the new one appended.
pub proof fn lemma_census_after_push(vs: Seq<Visit>, v: Visit)
    ensures
        census_after(vs.push(v)) == census_after(vs).step(v),
{
    assert(vs.push(v).drop_last() =~= vs);
}

/// How many of the visits satisfy `p`.
pub open spec fn count_where(vs: Seq<Visit>, p: spec_fn(Visit) -> bool) -> nat
    decreases vs.len(),
{
    if vs.len() == 0 {
        0
    } else {
        count_where(vs.drop_last(), p) + if p(vs.last()) { 1nat } else { 0nat }
    }
}

/// The total size of the processed files among the visits.
pub open spec fn size_of_processed(vs: Seq<Visit>) -> nat
    decreases vs.len(),
{
    if vs.len() == 0 {
        0
    } else {
        size_of_processed(vs.drop_last()) + added_size(vs.last())
    }
}

/// The counts by extension, and those by content type, each add up to the
/// number of files that were processed.
pub proof fn lemma_counts_match_files(vs: Seq<Visit>)
    ensures
        sum_counts(census_after(vs).extensions) == count_where(vs, |v: Visit| is_processed(v)),
        sum_counts(census_after(vs).mimetypes) == count_where(vs, |v: Visit| is_processed(v)),
    decreases vs.len(),
{
    if vs.len() > 0 {
        lemma_counts_match_files(vs.drop_last());
        let c = census_after(vs.drop_last());
        match vs.last() {
            Visit::File { path, name, size, head } => {
                if size is Ok && head is Ok {
                    lemma_bump_sum(c.extensions, extension(name@));
                    lemma_bump_sum(c.mimetypes, content_label(head->Ok_0@));
                }
            },
            _ => {},
        }
    }
}

/// One folder is listed for each directory visited.
pub proof fn lemma_folders_match_directories(vs: Seq<Visit>)
    ensures
        census_after(vs).folders.len() == count_where(vs, |v: Visit| is_folder(v)),
    decreases vs.len(),
{
    if vs.len() > 0 {
        lemma_folders_match_directories(vs.drop_last());
    }
}

/// The total size is that of the processed files alone: a file that failed
/// adds nothing.
pub proof fn lemma_size_of_processed_only(vs: Seq<Visit>)
    ensures
        census_after(vs).size == size_of_processed(vs),
    decreases vs.len(),
{
    if vs.len() > 0 {
        lemma_size_of_processed_only(vs.drop_last());
    }
}

/// One error is listed for each visit that could not be fully processed.
pub proof fn lemma_errors_match_failures(vs: Seq<Visit>)
    ensures
        census_after(vs).errors.len() == count_where(vs, |v: Visit| is_failure(v)),
    decreases vs.len(),
{
    if vs.len() > 0 {
        lemma_errors_match_failures(vs.drop_last());
    }
}

/// The census of one scan.
pub struct Report {
    pub extensions: CountMap,
    pub mimetypes: CountMap,
    pub folders: Vec<String>,
    pub size: u64,
    pub errors: Vec<ScanError>,
}

impl View for Report {
    type V = Census;

    open spec fn view(&self) -> Census {
        Census {
            extensions: self.extensions@,
            mimetypes: self.mimetypes@,
            folders: self.folders@.map_values(|p: String| p@),
            size: self.size as nat,
            errors: self.errors@.map_values(|e: ScanError| (e.path@, e.message@)),
        }
    }
}

/// Recording `v` keeps every total within a `u64`.
pub open spec fn fits(c: Census, v: Visit) -> bool {
    is_processed(v) ==> {
        &&& c.size + added_size(v) <= u64::MAX
        &&& sum_counts(c.extensions) < u64::MAX
        &&& sum_counts(c.mimetypes) < u64::MAX
    }
}

impl Default for Report {
    fn default() -> (r: Self)
        ensures
            r@ == Census::empty(),
    {
        Report::new()
    }
}

impl Report {
    /// An empty report.
    pub fn new() -> (r: Self)
        ensures
            r@ == Census::empty(),
    {
        let r = Report {
            extensions: CountMap::new(),
            mimetypes: CountMap::new(),
            folders: Vec::new(),
            size: 0,
            errors: Vec::new(),
        };
        assert(r@.folders =~= Seq::<Seq<char>>::empty());
        assert(r@.errors =~= Seq::<(Seq<char>, Seq<char>)>::empty());
        r
    }

    /// Whether recording `v` keeps every total within a `u64`.
    pub fn fits(&self, v: &Visit) -> (r: bool)
        ensures
            r == fits(self@, *v),
    {
        match v {
            Visit::File { size: Ok(n), head: Ok(_), .. } => {
                self.extensions.total() < u64::MAX && self.mimetypes.total() < u64::MAX
                    && *n <= u64::MAX - self.size
            },
            _ => true,
        }
    }

    /// Takes one visited node into the report, as `Census::step` describes.
    pub fn record(&mut self, v: Visit)
        requires
            fits(old(self)@, v),
        ensures
            final(self)@ == old(self)@.step(v),
    {
        match v {
            Visit::Folder { path } => {
                self.folders.push(path);
                assert(self@.folders =~= old(self)@.folders.push(path@));
            },
            Visit::File { path, name, size, head } => match size {
                Err(m) => self.push_error(path, m),
                Ok(n) => match head {
                    Err(m) => self.push_error(path, m),
                    Ok(h) => {
                        let ext = extension_of(name.as_str());
                        let mime = content_type(h.as_slice());
                        self.size = self.size + n;
                        self.extensions.increment(ext);
                        self.mimetypes.increment(mime);
                    },
                },
            },
            Visit::Failed { path, message } => self.push_error(path, message),
        }
    }

    fn push_error(&mut self, path: String, message: String)
        ensures
            final(self)@ == old(self)@.with_error(path@, message@),
    {
        self.errors.push(ScanError { path, message });
        assert(self@.errors =~= old(self)@.errors.push((path@, message@)));
    }
}

} // verus!

//! File-modification watches. The watch itself is pure bookkeeping over
//! modification times: the host program reads a file's time from disk each
//! frame and hands the reading in, `None` when the file can no longer be
//! examined.

use vstd::prelude::*;

verus! {

/// A watched file vanished between polls.
#[derive(Debug, Clone, PartialEq)]
pub enum WatchError {
    WatchTargetMissing(String),
}

/// The spec image of a watch.
#[verifier::ext_equal]
pub struct WatchModel {
    pub path: Seq<char>,
    pub last_modified: u64,
}

/// One watched path and the newest modification time seen on it.
#[derive(Debug, Clone, PartialEq)]
pub struct FileWatcher {
    path: String,
    last_modified: u64,
}

impl View for FileWatcher {
    type V = WatchModel;

    closed spec fn view(&self) -> WatchModel {
        WatchModel { path: self.path@, last_modified: self.last_modified }
    }
}

/// The watch after one observation: a strictly newer time is remembered,
/// anything else leaves the watch as it was.
pub open spec fn observed(w: WatchModel, t: u64) -> WatchModel {
    if t > w.last_modified {
        WatchModel { last_modified: t, ..w }
    } else {
        w
    }
}

impl FileWatcher {
    /// A watch over `path`, starting from the modification time the host
    /// read when the watch was created.
    pub fn new(path: String, modified: u64) -> (r: FileWatcher)
        ensures
            r@ == (WatchModel { path: path@, last_modified: modified }),
    {
        FileWatcher { path, last_modified: modified }
    }

    pub fn path(&self) -> (r: &str)
        ensures
            r@ == self@.path,
    {
        self.path.as_str()
    }

    pub fn last_modified(&self) -> (r: u64)
        ensures
            r == self@.last_modified,
    {
        self.last_modified
    }

    /// Applies one observation: `Some(t)` reports the file's current
    /// modification time, `None` that the file could not be examined. A
    /// strictly newer time is remembered and reported as a change; a missing
    /// file is an error and the watch is left untouched.
    pub fn update(&mut self, current: Option<u64>) -> (r: Result<bool, WatchError>)
        ensures
            match r {
                Ok(changed) => {
                    &&& current is Some
                    &&& changed == (current->0 > old(self)@.last_modified)
                    &&& final(self)@ == observed(old(self)@, current->0)
                },
                Err(WatchError::WatchTargetMissing(p)) => {
                    &&& current is None
                    &&& p@ == old(self)@.path
                    &&& final(self)@ == old(self)@
                },
            },
    {
        match current {
            Some(t) => {
                if t > self.last_modified {
                    self.last_modified = t;
                    Ok(true)
                } else {
                    Ok(false)
                }
            },
            None => Err(WatchError::WatchTargetMissing(self.path.clone())),
        }
    }
}

/// One watch per contributed file, under the shader source root, each
/// starting from the time the host read at creation.
pub fn get_file_watchers(files: &Vec<String>, times: &Vec<u64>) -> (r: Vec<FileWatcher>)
    requires
        files@.len() == times@.len(),
    ensures
        r@.len() == files@.len(),
        forall|i: int|
            0 <= i < files@.len() ==> (#[trigger] r@[i])@ == (WatchModel {
                path: "res/shaders/"@ + files@[i]@,
                last_modified: times@[i],
            }),
{
    let mut out: Vec<FileWatcher> = Vec::new();
    let mut i: usize = 0;
    while i < files.len()
        invariant
            i <= files@.len(),
            times@.len() == files@.len(),
            out@.len() == i,
            forall|j: int|
                0 <= j < i ==> (#[trigger] out@[j])@ == (WatchModel {
                    path: "res/shaders/"@ + files@[j]@,
                    last_modified: times@[j],
                }),
        decreases files@.len() - i,
    {
        let mut path = String::from_str("res/shaders/");
        path.append(files[i].as_str());
        out.push(FileWatcher::new(path, times[i]));
        i += 1;
    }
    out
}

} // verus!

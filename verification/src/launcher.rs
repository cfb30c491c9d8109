//! Book-keeping of the one app the hub runs at a time, and of the stand-in
//! executable it deploys where the app's own is missing.

use vstd::prelude::*;
use crate::text::same_text;

verus! {

/// A stand-in executable copied to `exe` because nothing was there.
#[derive(Debug, Clone)]
pub struct DeployedStub {
    /// Where the stand-in was written.
    pub exe: String,
    /// The highest directory created to hold it, if any had to be.
    pub created_dir: Option<String>,
}

/// What to remove to undo a deployment.
#[derive(Debug)]
pub enum Cleanup {
    /// Remove this directory and everything in it.
    RemoveDir(String),
    /// Remove this file.
    RemoveFile(String),
}

impl DeployedStub {
    /// What undoes the deployment: the directories it created where it
    /// created any, else the stand-in file alone.
    pub fn cleanup(&self) -> (r: Cleanup)
        ensures
            match self.created_dir {
                Some(dir) => r matches Cleanup::RemoveDir(d) && d@ == dir@,
                None => r matches Cleanup::RemoveFile(f) && f@ == self.exe@,
            },
    {
        match &self.created_dir {
            Some(dir) => Cleanup::RemoveDir(dir.clone()),
            None => Cleanup::RemoveFile(self.exe.clone()),
        }
    }
}

/// The app that runs: its id, what the caller keeps of its start (`start`,
/// such as the time), and the stand-in deployed for it, if any.
pub struct Running<S> {
    pub id: String,
    pub start: S,
    pub stub: Option<DeployedStub>,
}

/// Which app runs, if any. At most one does.
pub struct Launcher<S> {
    running: Option<Running<S>>,
}

impl<S> Launcher<S> {
    /// The id of the app that runs, if any.
    pub closed spec fn running_spec(&self) -> Option<Seq<char>> {
        match self.running {
            Some(r) => Some(r.id@),
            None => None,
        }
    }

    /// The record of the app that runs, if any.
    pub closed spec fn record_spec(&self) -> Option<Running<S>> {
        self.running
    }

    /// A launcher with nothing running.
    pub fn new() -> (r: Launcher<S>)
        ensures
            r.running_spec() is None,
            r.record_spec() is None,
    {
        Launcher { running: None }
    }

    /// The id of the app that runs, if any.
    pub fn running_id(&self) -> (r: Option<&str>)
        ensures
            match self.running_spec() {
                Some(id) => r matches Some(s) && s@ == id,
                None => r is None,
            },
    {
        match &self.running {
            Some(process) => Some(process.id.as_str()),
            None => None,
        }
    }

    /// What was kept of the start of the app that runs, if any.
    pub fn running_start(&self) -> (r: Option<&S>)
        ensures
            match self.record_spec() {
                Some(p) => r == Some(&p.start),
                None => r is None,
            },
    {
        match &self.running {
            Some(process) => Some(&process.start),
            None => None,
        }
    }

    /// Whether the app with id `id` is the one that runs.
    pub fn is_running(&self, id: &str) -> (r: bool)
        ensures
            r == (self.running_spec() == Some(id@)),
    {
        match self.running_id() {
            Some(current) => same_text(current, id),
            None => false,
        }
    }

    /// Records that the app `id` now runs, started as `start`, with the
    /// stand-in `stub`; hands back the record it replaces, if any.
    pub fn record(&mut self, id: String, start: S, stub: Option<DeployedStub>) -> (r: Option<
        Running<S>,
    >)
        ensures
            r == old(self).record_spec(),
            final(self).running_spec() == Some(id@),
            final(self).record_spec() == Some(Running { id, start, stub }),
    {
        let previous = self.running.take();
        self.running = Some(Running { id, start, stub });
        previous
    }

    /// Forgets the app that runs, handing back its record so that the
    /// caller can stop it and undo its stand-in.
    pub fn kill(&mut self) -> (r: Option<Running<S>>)
        ensures
            r == old(self).record_spec(),
            final(self).running_spec() is None,
            final(self).record_spec() is None,
    {
        self.running.take()
    }

    /// After the caller has asked the running app whether it has `exited`:
    /// where it has, forgets it and hands back its record; where it has not,
    /// or nothing runs, changes nothing.
    pub fn poll(&mut self, exited: bool) -> (r: Option<Running<S>>)
        ensures
            if exited {
                &&& r == old(self).record_spec()
                &&& final(self).record_spec() is None
            } else {
                &&& r is None
                &&& final(self).record_spec() == old(self).record_spec()
            },
            final(self).running_spec() == (if exited {
                None
            } else {
                old(self).running_spec()
            }),
    {
        if exited {
            self.running.take()
        } else {
            None
        }
    }
}

} // verus!

//! A run of the search over the sources that a configuration names.
//!
//! The run decides and the caller reads: [`Run::pending`] says which source is
//! to be read next, and [`Run::feed`] takes what the read gave and returns the
//! lines to print for it.

use vstd::prelude::*;
use crate::conf::{Conf, ConfView, Error};
use crate::search::{report, search_hub};

verus! {

/// One unit of input text. `S` is the type of a path: `&str` in executable
/// code, `Seq<char>` in contracts.
#[derive(Debug, PartialEq)]
pub enum Source<S> {
    /// All of standard input.
    Stdin,
    /// The whole file at this path.
    File(S),
}

/// The source that a run under `conf` reads after `done` sources were read.
///
/// The sources are the input files in their order, or standard input alone
/// where there are none. Once a source could not be read, nothing more is read.
pub open spec fn source_at(conf: ConfView, done: int, failed: bool) -> Option<Source<Seq<char>>> {
    if failed || done < 0 {
        None
    } else if conf.input_filepaths.len() == 0 {
        if done == 0 {
            Some(Source::Stdin)
        } else {
            None
        }
    } else if done < conf.input_filepaths.len() {
        Some(Source::File(conf.input_filepaths[done]))
    } else {
        None
    }
}

/// A run in progress.
pub struct Run {
    /// The configuration of the run.
    pub conf: Conf,
    /// How many sources were read and searched.
    pub done: usize,
    /// Whether a source could not be read, which ends the run.
    pub failed: bool,
}

/// Starts a run under `conf`. Nothing is read yet.
pub fn run(conf: Conf) -> (started: Run)
    ensures
        started.conf == conf,
        started.done == 0,
        !started.failed,
{
    Run { conf, done: 0, failed: false }
}

impl Run {
    /// The source to read next, by [`source_at`]; `None` when the run is over.
    pub open spec fn next_source(&self) -> Option<Source<Seq<char>>> {
        source_at(self.conf@, self.done as int, self.failed)
    }

    /// The source that the caller is to read next, or `None` when the run is
    /// over.
    pub fn pending(&self) -> (next: Option<Source<&str>>)
        ensures
            match next {
                None => self.next_source() is None,
                Some(Source::Stdin) => self.next_source() == Some(Source::<Seq<char>>::Stdin),
                Some(Source::File(path)) => self.next_source() == Some(Source::File(path@)),
            },
    {
        if self.failed {
            None
        } else if self.conf.input_filepaths.len() == 0 {
            if self.done == 0 {
                Some(Source::Stdin)
            } else {
                None
            }
        } else if self.done < self.conf.input_filepaths.len() {
            Some(Source::File(self.conf.input_filepaths[self.done].as_str()))
        } else {
            None
        }
    }

    /// Takes the outcome of reading the pending source: its text, or `None`
    /// where it could not be read as text.
    ///
    /// With a text, the lines to print for that source are returned and the
    /// run moves on to the next source. Without one, the run fails and is over.
    /// When no source is pending, nothing changes and there is nothing to
    /// print.
    pub fn feed<'a>(&mut self, text: Option<&'a str>) -> (res: Result<Vec<&'a str>, Error>)
        ensures
            final(self).conf == old(self).conf,
            match (old(self).next_source(), text) {
                (None, _) => {
                    &&& *final(self) == *old(self)
                    &&& res is Ok
                    &&& res->Ok_0.deep_view() == Seq::<Seq<char>>::empty()
                },
                (Some(_), None) => {
                    &&& res == Err::<Vec<&'a str>, Error>(Error::InputRead)
                    &&& final(self).failed
                    &&& final(self).done == old(self).done
                },
                (Some(_), Some(contents)) => {
                    &&& res is Ok
                    &&& res->Ok_0.deep_view() == report(old(self).conf@, contents@)
                    &&& !final(self).failed
                    &&& final(self).done == old(self).done + 1
                },
            },
    {
        if self.pending().is_none() {
            return Ok(Vec::new());
        }
        match text {
            None => {
                self.failed = true;
                Err(Error::InputRead)
            },
            Some(contents) => {
                let lines = search_hub(&self.conf, contents);
                assert(self.done == 0 || self.done < self.conf.input_filepaths.len());
                self.done = self.done + 1;
                Ok(lines)
            },
        }
    }
}

} // verus!

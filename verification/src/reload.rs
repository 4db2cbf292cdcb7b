//! Live config reload: when to re-read the file, and the mailbox a validated
//! configuration waits in. A configuration is handed over only if it parses and
//! lowers cleanly; after an invalid edit the running one is kept, so a typo can never
//! strand the keyboard.

use crate::config::{load, loaded, ConfigError};
use crate::rules::{Config, ConfigView};
use vstd::prelude::*;

verus! {

// === Watching ===

/// How often the file is looked at, in milliseconds.
pub const POLL_INTERVAL_MS: u64 = 1000;

/// The modification time a file was last seen with, in nanoseconds.
#[derive(Clone, Copy, Debug)]
pub struct FileWatch {
    pub last: Option<i128>,
}

impl FileWatch {
    /// Watch a file from its present modification time on.
    pub fn new(modified: Option<i128>) -> (r: FileWatch)
        ensures
            r.last == modified,
    {
        FileWatch { last: modified }
    }

    /// Look at the file again: whether it has changed. A file that cannot be looked
    /// at has not.
    pub fn poll(&mut self, modified: Option<i128>) -> (r: bool)
        ensures
            r == (modified is Some && modified != old(self).last),
            final(self).last == if modified is Some {
                modified
            } else {
                old(self).last
            },
    {
        match modified {
            Some(time) => {
                let changed = match self.last {
                    Some(last) => last != time,
                    None => true,
                };
                self.last = Some(time);
                changed
            },
            None => false,
        }
    }
}

// === Handing over ===

/// A validated configuration waiting to be applied.
#[derive(Debug)]
pub struct Mailbox {
    pending: Option<Config>,
}

impl View for Mailbox {
    type V = Option<ConfigView>;

    closed spec fn view(&self) -> Option<ConfigView> {
        match self.pending {
            Some(config) => Some(config@),
            None => None,
        }
    }
}

impl Mailbox {
    /// An empty mailbox.
    pub fn new() -> (r: Mailbox)
        ensures
            r@ is None,
    {
        Mailbox { pending: None }
    }

    /// Put the configuration of a text in, if it is valid; otherwise what waits stays.
    pub fn publish(&mut self, text: &str, os: &str) -> (r: Result<(), ConfigError>)
        ensures
            match loaded(text@, os@) {
                Ok(config) => r is Ok && final(self)@ == Some(config),
                Err(fault) => r matches Err(e) && e@ == fault && final(self)@ == old(self)@,
            },
    {
        match load(text, os) {
            Ok(config) => {
                self.pending = Some(config);
                Ok(())
            },
            Err(e) => Err(e),
        }
    }

    /// Take the waiting configuration out, if there is one.
    pub fn take(&mut self) -> (r: Option<Config>)
        ensures
            match r {
                Some(config) => old(self)@ == Some(config@),
                None => old(self)@ is None,
            },
            final(self)@ is None,
    {
        let mut slot: Option<Config> = None;
        std::mem::swap(&mut slot, &mut self.pending);
        slot
    }
}

} // verus!

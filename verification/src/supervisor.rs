use vstd::prelude::*;

use crate::config::{name_index, Config};

verus! {

/// An operator intent, produced by the control surface.
#[derive(Debug, PartialEq, Eq)]
pub enum Command {
    Quit,
    LogLevel(String),
    Reload(String),
    Start(String),
    Stop(String),
    Restart(String),
}

/// What the caller must do after one command was dispatched. Index payloads
/// point into the live configuration's program list.
#[derive(Debug, PartialEq, Eq)]
pub enum Directive {
    /// Gracefully stop every program.
    StopAll,
    /// Stop waiting for quiescence: sweep with a forced kill, then exit.
    ForceQuit,
    /// Reapply the stored log level through the logging handle.
    ApplyLogLevel,
    /// Load a configuration from this path and reconcile it into the live one.
    LoadFrom(String),
    /// Start every program.
    StartAll,
    /// Start the program at this index.
    StartOne(usize),
    /// Gracefully stop the program at this index.
    StopOne(usize),
    /// Restart every program.
    RestartAll,
    /// Restart the program at this index.
    RestartOne(usize),
    /// The command named no live program; report the operator error.
    UnknownName(String),
}

/// The supervisor's own state: the live configuration, the path the
/// configuration was first loaded from, and the two quit flags.
pub struct Supervisor {
    pub config: Config,
    pub config_path: String,
    pub pending_quit: bool,
    pub force_quit: bool,
}

/// Every program of the configuration is quiescent.
pub open spec fn all_programs_stopped(c: Config) -> bool {
    forall|i: int| 0 <= i < c.program@.len() ==> (#[trigger] c.program@[i]).all_stopped_spec()
}

impl Supervisor {
    /// The loop may exit: a forced quit was ordered, or a pending quit has
    /// seen every program go quiescent.
    pub open spec fn should_exit_spec(&self) -> bool {
        self.force_quit || (self.pending_quit && all_programs_stopped(self.config))
    }

    /// True iff the loop may exit now.
    pub fn should_exit(&self) -> (r: bool)
        ensures
            r == self.should_exit_spec(),
    {
        if self.force_quit {
            return true;
        }
        if !self.pending_quit {
            return false;
        }
        let mut i: usize = 0;
        while i < self.config.program.len()
            invariant
                i <= self.config.program@.len(),
                !self.force_quit,
                self.pending_quit,
                forall|j: int| 0 <= j < i ==> (#[trigger] self.config.program@[j]).all_stopped_spec(),
            decreases self.config.program@.len() - i,
        {
            if !self.config.program[i].all_stopped() {
                proof {
                    assert(!(self.config.program@[i as int].all_stopped_spec()));
                }
                return false;
            }
            i += 1;
        }
        true
    }

    /// Dispatch one operator command: record its effect on the supervisor's
    /// state and tell the caller what to perform. A first quit starts a
    /// graceful shutdown of everything; a second quit forces the exit. An
    /// empty name broadcasts to every program; a name matching no program is
    /// reported back as unknown.
    pub fn handle_command(&mut self, cmd: Command) -> (d: Directive)
        ensures
            match cmd {
                Command::Quit => {
                    &&& final(self).config == old(self).config
                    &&& final(self).config_path == old(self).config_path
                    &&& if old(self).pending_quit {
                        final(self).force_quit && final(self).pending_quit && d is ForceQuit
                    } else {
                        final(self).pending_quit && final(self).force_quit == old(self).force_quit
                            && d is StopAll
                    }
                },
                Command::LogLevel(level) => {
                    &&& final(self).config.loglevel == level
                    &&& final(self).config.program == old(self).config.program
                    &&& final(self).config.user == old(self).config.user
                    &&& final(self).config.program_deletions == old(self).config.program_deletions
                    &&& final(self).config_path == old(self).config_path
                    &&& final(self).pending_quit == old(self).pending_quit
                    &&& final(self).force_quit == old(self).force_quit
                    &&& d is ApplyLogLevel
                },
                Command::Reload(path) => {
                    &&& *final(self) == *old(self)
                    &&& d is LoadFrom
                    &&& d->LoadFrom_0@ == if path@.len() == 0 {
                        old(self).config_path@
                    } else {
                        path@
                    }
                },
                Command::Start(name) => {
                    &&& *final(self) == *old(self)
                    &&& if name@.len() == 0 {
                        d == Directive::StartAll
                    } else if name_index(old(self).config.program@, name@)
                        < old(self).config.program@.len() {
                        d is StartOne && d->StartOne_0 as int == name_index(
                            old(self).config.program@,
                            name@,
                        )
                    } else {
                        d is UnknownName && d->UnknownName_0@ == name@
                    }
                },
                Command::Stop(name) => {
                    &&& *final(self) == *old(self)
                    &&& if name@.len() == 0 {
                        d == Directive::StopAll
                    } else if name_index(old(self).config.program@, name@)
                        < old(self).config.program@.len() {
                        d is StopOne && d->StopOne_0 as int == name_index(
                            old(self).config.program@,
                            name@,
                        )
                    } else {
                        d is UnknownName && d->UnknownName_0@ == name@
                    }
                },
                Command::Restart(name) => {
                    &&& *final(self) == *old(self)
                    &&& if name@.len() == 0 {
                        d == Directive::RestartAll
                    } else if name_index(old(self).config.program@, name@)
                        < old(self).config.program@.len() {
                        d is RestartOne && d->RestartOne_0 as int == name_index(
                            old(self).config.program@,
                            name@,
                        )
                    } else {
                        d is UnknownName && d->UnknownName_0@ == name@
                    }
                },
            },
    {
        match cmd {
            Command::Quit => {
                if self.pending_quit {
                    self.force_quit = true;
                    Directive::ForceQuit
                } else {
                    self.pending_quit = true;
                    Directive::StopAll
                }
            },
            Command::LogLevel(level) => {
                self.config.loglevel = level;
                Directive::ApplyLogLevel
            },
            Command::Reload(path) => {
                if path.as_str().is_empty() {
                    Directive::LoadFrom(self.config_path.clone())
                } else {
                    Directive::LoadFrom(path)
                }
            },
            Command::Start(name) => {
                if name.as_str().is_empty() {
                    Directive::StartAll
                } else {
                    match crate::config::find_by_name(
                        &self.config.program,
                        &name,
                        self.config.program.len(),
                    ) {
                        Option::Some(i) => {
                            proof {
                                crate::config::lemma_name_index_of_match(
                                    self.config.program@,
                                    name@,
                                    i as int,
                                );
                            }
                            Directive::StartOne(i)
                        },
                        Option::None => {
                            proof {
                                crate::config::lemma_name_index_of_none(
                                    self.config.program@,
                                    name@,
                                );
                            }
                            Directive::UnknownName(name)
                        },
                    }
                }
            },
            Command::Stop(name) => {
                if name.as_str().is_empty() {
                    Directive::StopAll
                } else {
                    match crate::config::find_by_name(
                        &self.config.program,
                        &name,
                        self.config.program.len(),
                    ) {
                        Option::Some(i) => {
                            proof {
                                crate::config::lemma_name_index_of_match(
                                    self.config.program@,
                                    name@,
                                    i as int,
                                );
                            }
                            Directive::StopOne(i)
                        },
                        Option::None => {
                            proof {
                                crate::config::lemma_name_index_of_none(
                                    self.config.program@,
                                    name@,
                                );
                            }
                            Directive::UnknownName(name)
                        },
                    }
                }
            },
            Command::Restart(name) => {
                if name.as_str().is_empty() {
                    Directive::RestartAll
                } else {
                    match crate::config::find_by_name(
                        &self.config.program,
                        &name,
                        self.config.program.len(),
                    ) {
                        Option::Some(i) => {
                            proof {
                                crate::config::lemma_name_index_of_match(
                                    self.config.program@,
                                    name@,
                                    i as int,
                                );
                            }
                            Directive::RestartOne(i)
                        },
                        Option::None => {
                            proof {
                                crate::config::lemma_name_index_of_none(
                                    self.config.program@,
                                    name@,
                                );
                            }
                            Directive::UnknownName(name)
                        },
                    }
                }
            },
        }
    }
}

} // verus!

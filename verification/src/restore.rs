//! Restoring: the content of an offloaded file is downloaded, checked and written back
//! as it was.

use vstd::prelude::*;

use crate::config::{Config, ConfigView};
use crate::effects;
use crate::effects::{Action, ActionView, Flow, LinkKind, Reply, ReplyView, Step, StepView};
use crate::error::{Fault, StowError};
use crate::hash;
use crate::text;

verus! {

/// What came of restoring a file.
pub struct RestoreResult {
    pub path: String,
    pub bytes_restored: i64,
}

/// The content of a `RestoreResult`.
pub struct RestoreResultView {
    pub path: Seq<char>,
    pub bytes_restored: i64,
}

impl View for RestoreResult {
    type V = RestoreResultView;

    open spec fn view(&self) -> RestoreResultView {
        RestoreResultView {
            path: self.path@,
            bytes_restored: self.bytes_restored,
        }
    }
}

/// What a restore is waiting for.
#[derive(Clone, Copy, Debug)]
pub enum RestorePhase {
    /// The record of the file.
    Record,
    /// The content.
    Fetch,
    /// Whether the placeholder is a link.
    Kind,
    /// The removal of the link.
    Unlink,
    /// The removal of the item in the mirror area.
    Unmirror,
    /// The word to the agent.
    Signal,
    /// The bytes in their place.
    Write,
    /// The permissions.
    Mode,
    /// The time.
    Time,
    /// The access and modification times.
    Times,
    /// The flag in the index.
    Mark,
    /// Nothing more.
    Over,
}

/// A file on its way back. What is not known yet is empty or zero.
pub struct Restore {
    phase: RestorePhase,
    path: String,
    cfg: Config,
    hash: String,
    key: String,
    mode: u32,
    mtime: i64,
    data: Vec<u8>,
    len: usize,
}

/// The content of a `Restore`.
pub struct RestoreView {
    pub phase: RestorePhase,
    pub path: Seq<char>,
    pub cfg: ConfigView,
    pub hash: Seq<char>,
    pub key: Seq<char>,
    pub mode: u32,
    pub mtime: i64,
    pub data: Seq<u8>,
    pub len: usize,
}

impl View for Restore {
    type V = RestoreView;

    closed spec fn view(&self) -> RestoreView {
        RestoreView {
            phase: self.phase,
            path: self.path@,
            cfg: self.cfg@,
            hash: self.hash@,
            key: self.key@,
            mode: self.mode,
            mtime: self.mtime,
            data: self.data@,
            len: self.len,
        }
    }
}

impl RestoreView {
    /// A restore that has not begun.
    pub open spec fn fresh(path: Seq<char>, cfg: ConfigView) -> RestoreView {
        RestoreView {
            phase: RestorePhase::Record,
            path,
            cfg,
            hash: Seq::empty(),
            key: Seq::empty(),
            mode: 0,
            mtime: 0,
            data: Seq::empty(),
            len: 0,
        }
    }

    /// Asks for an action and waits for what comes of it.
    pub open spec fn ask(self, phase: RestorePhase, a: ActionView) -> (
        RestoreView,
        StepView<RestoreResultView>,
    ) {
        (RestoreView { phase, ..self }, StepView::Ask(a))
    }

    /// Ends with an outcome.
    pub open spec fn end(self, r: Result<RestoreResultView, Fault>) -> (RestoreView, StepView<RestoreResultView>) {
        (RestoreView { phase: RestorePhase::Over, ..self }, StepView::End(r))
    }

    /// Writes the bytes in their place.
    pub open spec fn write(self) -> (RestoreView, StepView<RestoreResultView>) {
        RestoreView { data: Seq::empty(), ..self }.ask(
            RestorePhase::Write,
            ActionView::WriteFile { path: self.path, data: self.data },
        )
    }

    /// The error for content that is not what was recorded.
    pub open spec fn mismatch(self, got: Seq<char>) -> Fault {
        Fault::Integrity(
            self.path + ": hash mismatch (expected "@ + self.hash + (", got "@ + got + ")"@),
        )
    }

    /// What a restore does when `reply` comes in.
    pub open spec fn respond(self, reply: ReplyView) -> (RestoreView, StepView<RestoreResultView>) {
        match (self.phase, reply) {
            (RestorePhase::Record, ReplyView::Record(r)) => match r {
                Err(e) => self.end(Err(e)),
                Ok(None) => self.end(
                    Err(Fault::NotFound(self.path + " is not tracked by Stow"@)),
                ),
                Ok(Some(rec)) => RestoreView {
                    hash: rec.hash,
                    key: rec.s3_key,
                    mode: rec.mode,
                    mtime: rec.mtime,
                    ..self
                }.ask(
                    RestorePhase::Fetch,
                    ActionView::GetObject { at: self.cfg.remote(), key: rec.s3_key },
                ),
            },
            (RestorePhase::Fetch, ReplyView::Object(r)) => match r {
                Err(e) => self.end(Err(e)),
                Ok(data) => if hash::blake3_hex(data) != self.hash {
                    self.end(Err(self.mismatch(hash::blake3_hex(data))))
                } else {
                    RestoreView { data, len: data.len() as usize, ..self }.ask(
                        RestorePhase::Kind,
                        ActionView::LinkKind { path: self.path },
                    )
                },
            },
            (RestorePhase::Kind, ReplyView::Link(kind)) => match kind {
                LinkKind::Link => self.ask(
                    RestorePhase::Unlink,
                    ActionView::RemoveFile { path: self.path },
                ),
                _ => self.write(),
            },
            (RestorePhase::Unlink, ReplyView::Wrote(r)) => match r {
                Err(m) => self.end(Err(Fault::Io(m))),
                Ok(_) => self.ask(
                    RestorePhase::Unmirror,
                    ActionView::RemoveMirror { path: self.path },
                ),
            },
            (RestorePhase::Unmirror, ReplyView::Ready) => self.ask(
                RestorePhase::Signal,
                ActionView::Signal,
            ),
            (RestorePhase::Signal, ReplyView::Ready) => self.write(),
            (RestorePhase::Write, ReplyView::Wrote(r)) => match r {
                Err(m) => self.end(Err(Fault::Io(m))),
                Ok(_) => self.ask(
                    RestorePhase::Mode,
                    ActionView::SetMode { path: self.path, mode: self.mode },
                ),
            },
            (RestorePhase::Mode, ReplyView::Wrote(r)) => match r {
                Err(m) => self.end(Err(Fault::Io(m))),
                Ok(_) => self.ask(RestorePhase::Time, ActionView::Clock),
            },
            (RestorePhase::Time, ReplyView::Time(now)) => self.ask(
                RestorePhase::Times,
                ActionView::SetTimes { path: self.path, atime: now, mtime: self.mtime },
            ),
            (RestorePhase::Times, ReplyView::Wrote(r)) => match r {
                Err(m) => self.end(Err(Fault::Io(m))),
                Ok(_) => self.ask(RestorePhase::Mark, ActionView::MarkRestored { path: self.path }),
            },
            (RestorePhase::Mark, ReplyView::Done(r)) => match r {
                Err(e) => self.end(Err(e)),
                Ok(_) => self.end(
                    Ok(RestoreResultView { path: self.path, bytes_restored: self.len as i64 }),
                ),
            },
            _ => self.end(Err(effects::stray())),
        }
    }
}

impl Flow for RestoreView {
    type Out = RestoreResultView;

    open spec fn next(self, reply: ReplyView) -> (RestoreView, StepView<RestoreResultView>) {
        self.respond(reply)
    }
}

/// Begins to restore a file.
pub fn restore(path: &str, cfg: &Config) -> (r: (Restore, Step<RestoreResult>))
    ensures
        r.0@ == RestoreView::fresh(path@, cfg@),
        r.1@ == StepView::<RestoreResultView>::Ask(ActionView::LoadRecord { path: path@ }),
        (r.0@, r.1@) == crate::laws::restore_start(path@, cfg@),
{
    let f = Restore {
        phase: RestorePhase::Record,
        path: path.to_owned(),
        cfg: cfg.clone(),
        hash: String::new(),
        key: String::new(),
        mode: 0,
        mtime: 0,
        data: Vec::new(),
        len: 0,
    };
    (f, Step::Ask(Action::LoadRecord { path: path.to_owned() }))
}

impl Restore {
    fn ask(&mut self, phase: RestorePhase, a: Action) -> (r: Step<RestoreResult>)
        ensures
            (final(self)@, r@) == old(self)@.ask(phase, a@),
    {
        self.phase = phase;
        Step::Ask(a)
    }

    fn fail(&mut self, e: StowError) -> (r: Step<RestoreResult>)
        ensures
            (final(self)@, r@) == old(self)@.end(Err(e@)),
    {
        self.phase = RestorePhase::Over;
        Step::End(Err(e))
    }

    fn write(&mut self) -> (r: Step<RestoreResult>)
        ensures
            (final(self)@, r@) == old(self)@.write(),
    {
        let mut data: Vec<u8> = Vec::new();
        std::mem::swap(&mut data, &mut self.data);
        assert(self@ =~= (RestoreView { data: Seq::empty(), ..old(self)@ }));
        let a = Action::WriteFile { path: self.path.clone(), data };
        self.ask(RestorePhase::Write, a)
    }

    fn fetched(&mut self, data: Vec<u8>) -> (r: Step<RestoreResult>)
        requires
            old(self)@.phase is Fetch,
        ensures
            (final(self)@, r@) == old(self)@.respond(ReplyView::Object(Ok(data@))),
    {
        let got = hash::content_hash(data.as_slice());
        if !text::same(got.as_str(), self.hash.as_str()) {
            let head = text::cat3(
                self.path.as_str(),
                ": hash mismatch (expected ",
                self.hash.as_str(),
            );
            let tail = text::cat3(", got ", got.as_str(), ")");
            let m = text::cat2(head.as_str(), tail.as_str());
            self.fail(StowError::Integrity(m))
        } else {
            self.len = data.len();
            self.data = data;
            let a = Action::LinkKind { path: self.path.clone() };
            self.ask(RestorePhase::Kind, a)
        }
    }

    fn wrote(
        &mut self,
        done: Result<(), String>,
        phase: RestorePhase,
        a: Action,
    ) -> (r: Step<RestoreResult>)
        ensures
            (final(self)@, r@) == match done {
                Err(m) => old(self)@.end(Err(Fault::Io(m@))),
                Ok(_) => old(self)@.ask(phase, a@),
            },
    {
        match done {
            Err(m) => self.fail(StowError::Io(m)),
            Ok(_) => self.ask(phase, a),
        }
    }

    /// Takes what came of the action that was asked for, and says what is next.
    #[verifier::spinoff_prover]
    #[verifier::rlimit(40)]
    pub fn step(&mut self, reply: Reply) -> (r: Step<RestoreResult>)
        ensures
            (final(self)@, r@) == old(self)@.respond(reply@),
    {
        match (self.phase, reply) {
            (RestorePhase::Record, Reply::Record(found)) => match found {
                Err(e) => self.fail(e),
                Ok(None) => {
                    let m = text::cat2(self.path.as_str(), " is not tracked by Stow");
                    self.fail(StowError::NotFound(m))
                },
                Ok(Some(rec)) => {
                    self.hash = rec.hash;
                    self.key = rec.s3_key.clone();
                    self.mode = rec.mode;
                    self.mtime = rec.mtime;
                    let a = Action::GetObject { at: self.cfg.remote(), key: rec.s3_key };
                    self.ask(RestorePhase::Fetch, a)
                },
            },
            (RestorePhase::Fetch, Reply::Object(got)) => match got {
                Err(e) => self.fail(e),
                Ok(data) => self.fetched(data),
            },
            (RestorePhase::Kind, Reply::Link(kind)) => match kind {
                LinkKind::Link => {
                    let a = Action::RemoveFile { path: self.path.clone() };
                    self.ask(RestorePhase::Unlink, a)
                },
                _ => self.write(),
            },
            (RestorePhase::Unlink, Reply::Wrote(done)) => {
                let a = Action::RemoveMirror { path: self.path.clone() };
                self.wrote(done, RestorePhase::Unmirror, a)
            },
            (RestorePhase::Unmirror, Reply::Ready) => self.ask(
                RestorePhase::Signal,
                Action::Signal,
            ),
            (RestorePhase::Signal, Reply::Ready) => self.write(),
            (RestorePhase::Write, Reply::Wrote(done)) => {
                let a = Action::SetMode { path: self.path.clone(), mode: self.mode };
                self.wrote(done, RestorePhase::Mode, a)
            },
            (RestorePhase::Mode, Reply::Wrote(done)) => self.wrote(
                done,
                RestorePhase::Time,
                Action::Clock,
            ),
            (RestorePhase::Time, Reply::Time(now)) => {
                let a = Action::SetTimes {
                    path: self.path.clone(),
                    atime: now,
                    mtime: self.mtime,
                };
                self.ask(RestorePhase::Times, a)
            },
            (RestorePhase::Times, Reply::Wrote(done)) => {
                let a = Action::MarkRestored { path: self.path.clone() };
                self.wrote(done, RestorePhase::Mark, a)
            },
            (RestorePhase::Mark, Reply::Done(done)) => match done {
                Err(e) => self.fail(e),
                Ok(_) => {
                    self.phase = RestorePhase::Over;
                    Step::End(
                        Ok(
                            RestoreResult {
                                path: self.path.clone(),
                                bytes_restored: self.len as i64,
                            },
                        ),
                    )
                },
            },
            _ => self.fail(effects::stray_reply()),
        }
    }
}

} // verus!

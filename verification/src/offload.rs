//! Offloading: a file is uploaded, then replaced by a placeholder to free its space. A link
//! is made beside the file and moved over it in one step, and a stub is written in its
//! place, so that there is always something at the path.

use vstd::prelude::*;
use vstd::utf8::*;

use crate::config;
use crate::config::{Config, ConfigView};
use crate::effects;
use crate::effects::{Action, ActionView, Flow, LinkKind, Reply, ReplyView, Step, StepView};
use crate::error::{Fault, StowError};
use crate::hash;
use crate::index::{Record, RecordView};
use crate::paths;
use crate::placeholder;
use crate::placeholder::{Stub, StubView};
use crate::text;

verus! {

/// What came of offloading a file.
pub struct OffloadResult {
    pub path: String,
    pub hash: String,
    pub bytes_freed: i64,
    pub s3_key: String,
    /// Whether the content was in the bucket already.
    pub deduped: bool,
    /// True when the path is now a link into the mirror area, so that opening it
    /// brings the bytes back. False for a stub, which has to be restored.
    pub transparent: bool,
}

/// The content of an `OffloadResult`.
pub struct OffloadResultView {
    pub path: Seq<char>,
    pub hash: Seq<char>,
    pub bytes_freed: i64,
    pub s3_key: Seq<char>,
    pub deduped: bool,
    pub transparent: bool,
}

impl View for OffloadResult {
    type V = OffloadResultView;

    open spec fn view(&self) -> OffloadResultView {
        OffloadResultView {
            path: self.path@,
            hash: self.hash@,
            bytes_freed: self.bytes_freed,
            s3_key: self.s3_key@,
            deduped: self.deduped,
            transparent: self.transparent,
        }
    }
}

/// What an offload is waiting for.
#[derive(Clone, Copy, Debug)]
pub enum OffloadPhase {
    /// Whether the path is a regular file.
    Kind,
    /// Whether it is a placeholder.
    Probe,
    /// Its bytes.
    Read,
    /// Its size, mode and modification time.
    Meta,
    /// Whether its content was in the bucket before.
    Known,
    /// Whether its content has to be uploaded.
    Head,
    /// The upload.
    Store,
    /// The time.
    Time,
    /// The record in the index.
    Save,
    /// Where the Stow folder is mounted.
    Mount,
    /// The item in the mirror area.
    Mirror,
    /// The word to the agent.
    Signal,
    /// Whether the item has appeared.
    Look,
    /// The pause before it is looked for again.
    Pause,
    /// Whether a name beside the file is free.
    Free,
    /// The link of that name.
    Link,
    /// Whether it was moved over the file.
    Put,
    /// The removal of a link that could not be moved.
    Undo,
    /// The description for a stub.
    Render,
    /// The stub in its place.
    Write,
    /// Nothing more.
    Over,
}

/// A file on its way to the bucket. What is not known yet is empty or zero.
pub struct Offload {
    phase: OffloadPhase,
    path: String,
    cfg: Config,
    inplace: String,
    fp_down: bool,
    data: Vec<u8>,
    size: i64,
    mode: u32,
    mtime: i64,
    hash: String,
    key: String,
    deduped: bool,
    time: i64,
    root: Vec<u8>,
    target: Vec<u8>,
    tries: u32,
}

/// The content of an `Offload`.
pub struct OffloadView {
    pub phase: OffloadPhase,
    pub path: Seq<char>,
    pub cfg: ConfigView,
    pub inplace: Seq<char>,
    pub fp_down: bool,
    pub data: Seq<u8>,
    pub size: i64,
    pub mode: u32,
    pub mtime: i64,
    pub hash: Seq<char>,
    pub key: Seq<char>,
    pub deduped: bool,
    pub time: i64,
    pub root: Seq<u8>,
    pub target: Seq<u8>,
    pub tries: u32,
}

impl View for Offload {
    type V = OffloadView;

    closed spec fn view(&self) -> OffloadView {
        OffloadView {
            phase: self.phase,
            path: self.path@,
            cfg: self.cfg@,
            inplace: self.inplace@,
            fp_down: self.fp_down,
            data: self.data@,
            size: self.size,
            mode: self.mode,
            mtime: self.mtime,
            hash: self.hash@,
            key: self.key@,
            deduped: self.deduped,
            time: self.time,
            root: self.root@,
            target: self.target@,
            tries: self.tries,
        }
    }
}

/// How often an item is looked for in the mirror area before it is given up.
pub const MAX_TRIES: u32 = 50;

/// How many names beside a file are tried for a link before it is given up.
pub const LINK_NAMES: u32 = 1000;

/// How long to wait before an item is looked for again, in milliseconds.
pub const PAUSE_MILLIS: u64 = 200;

impl OffloadView {
    /// An offload that has not begun.
    pub open spec fn fresh(
        path: Seq<char>,
        cfg: ConfigView,
        inplace: Seq<char>,
        fp_down: bool,
    ) -> OffloadView {
        OffloadView {
            phase: OffloadPhase::Kind,
            path,
            cfg,
            inplace,
            fp_down,
            data: Seq::empty(),
            size: 0,
            mode: 0,
            mtime: 0,
            hash: Seq::empty(),
            key: Seq::empty(),
            deduped: false,
            time: 0,
            root: Seq::empty(),
            target: Seq::empty(),
            tries: 0,
        }
    }

    /// The record of the file.
    pub open spec fn record(self) -> RecordView {
        RecordView {
            path: self.path,
            hash: self.hash,
            size: self.size,
            mode: self.mode,
            mtime: self.mtime,
            s3_key: self.key,
            offloaded_at: self.time,
            restored: false,
        }
    }

    /// What a stub in the place of the file says.
    pub open spec fn stub(self) -> StubView {
        StubView {
            path: self.path,
            hash: self.hash,
            size: self.size,
            s3_key: self.key,
            bucket: self.cfg.bucket,
            region: self.cfg.region,
        }
    }

    /// The mirror area.
    pub open spec fn mirror_dir(self) -> Seq<u8> {
        text::joined_bytes(self.root, encode_utf8(self.inplace))
    }

    /// Where the link that is to replace the file is made.
    pub open spec fn spot(self) -> Seq<char> {
        paths::beside(self.path, self.tries)
    }

    /// Looks whether a name beside the file is free.
    pub open spec fn find_spot(self) -> (OffloadView, StepView<OffloadResultView>) {
        self.ask(OffloadPhase::Free, ActionView::LinkKind { path: self.spot() })
    }

    /// The outcome of an offload that succeeds.
    pub open spec fn result(self, transparent: bool) -> OffloadResultView {
        OffloadResultView {
            path: self.path,
            hash: self.hash,
            bytes_freed: self.size,
            s3_key: self.key,
            deduped: self.deduped,
            transparent,
        }
    }

    /// Asks for an action and waits for what comes of it.
    pub open spec fn ask(self, phase: OffloadPhase, a: ActionView) -> (
        OffloadView,
        StepView<OffloadResultView>,
    ) {
        (OffloadView { phase, ..self }, StepView::Ask(a))
    }

    /// Ends with an outcome.
    pub open spec fn end(self, r: Result<OffloadResultView, Fault>) -> (
        OffloadView,
        StepView<OffloadResultView>,
    ) {
        (OffloadView { phase: OffloadPhase::Over, ..self }, StepView::End(r))
    }

    /// Falls back to a stub.
    pub open spec fn to_stub(self) -> (OffloadView, StepView<OffloadResultView>) {
        self.ask(OffloadPhase::Render, ActionView::RenderStub { stub: self.stub() })
    }

    /// What an offload does when `reply` comes in.
    pub open spec fn respond(self, reply: ReplyView) -> (OffloadView, StepView<OffloadResultView>) {
        match (self.phase, reply) {
            (OffloadPhase::Kind, ReplyView::Kind(r)) => match r {
                Ok(true) => self.ask(OffloadPhase::Probe, ActionView::Probe { path: self.path }),
                Ok(false) => self.end(
                    Err(Fault::InvalidArg(self.path + " is not a regular file"@)),
                ),
                Err(m) => self.end(Err(Fault::Io(self.path + ": "@ + m))),
            },
            (OffloadPhase::Probe, ReplyView::Probed(found)) => match found.placeholder(
                self.inplace,
            ) {
                Err(e) => self.end(Err(e)),
                Ok(true) => self.end(
                    Err(Fault::InvalidArg(self.path + " is already offloaded"@)),
                ),
                Ok(false) => if paths::in_stow_folder(self.path) {
                    self.end(
                        Err(
                            Fault::InvalidArg(
                                self.path
                                    + " is inside the Stow folder — it's already offload-managed"@,
                            ),
                        ),
                    )
                } else {
                    self.ask(OffloadPhase::Read, ActionView::ReadFile { path: self.path })
                },
            },
            (OffloadPhase::Read, ReplyView::File(r)) => match r {
                Err(m) => self.end(Err(Fault::Io(m))),
                Ok(data) => OffloadView { data, ..self }.ask(
                    OffloadPhase::Meta,
                    ActionView::StatMeta { path: self.path },
                ),
            },
            (OffloadPhase::Meta, ReplyView::Meta(r)) => match r {
                Err(m) => self.end(Err(Fault::Io(m))),
                Ok(m) => {
                    let hash = hash::blake3_hex(self.data);
                    let key = self.cfg.key_for(hash);
                    OffloadView {
                        size: m.size,
                        mode: m.mode,
                        mtime: m.mtime,
                        hash,
                        key,
                        ..self
                    }.ask(
                        OffloadPhase::Known,
                        ActionView::HeadObject { at: self.cfg.remote(), key },
                    )
                },
            },
            (OffloadPhase::Known, ReplyView::Found(r)) => match r {
                Err(e) => self.end(Err(e)),
                Ok(found) => OffloadView { deduped: found, ..self }.ask(
                    OffloadPhase::Head,
                    ActionView::HeadObject { at: self.cfg.remote(), key: self.key },
                ),
            },
            (OffloadPhase::Head, ReplyView::Found(r)) => match r {
                Err(e) => self.end(Err(e)),
                Ok(true) => OffloadView { data: Seq::empty(), ..self }.ask(
                    OffloadPhase::Time,
                    ActionView::Clock,
                ),
                Ok(false) => OffloadView { data: Seq::empty(), ..self }.ask(
                    OffloadPhase::Store,
                    ActionView::StoreObject {
                        at: self.cfg.remote(),
                        key: self.key,
                        data: self.data,
                    },
                ),
            },
            (OffloadPhase::Store, ReplyView::Done(r)) => match r {
                Err(e) => self.end(Err(e)),
                Ok(_) => self.ask(OffloadPhase::Time, ActionView::Clock),
            },
            (OffloadPhase::Time, ReplyView::Time(time)) => {
                let s = OffloadView { time, ..self };
                s.ask(OffloadPhase::Save, ActionView::SaveRecord { rec: s.record() })
            },
            (OffloadPhase::Save, ReplyView::Done(r)) => match r {
                Err(e) => self.end(Err(e)),
                Ok(_) => if self.fp_down {
                    self.to_stub()
                } else {
                    self.ask(OffloadPhase::Mount, ActionView::FindMount)
                },
            },
            (OffloadPhase::Mount, ReplyView::Mount(r)) => match r {
                None => self.to_stub(),
                Some(root) => OffloadView { root, ..self }.ask(
                    OffloadPhase::Mirror,
                    ActionView::MirrorItem { rec: self.record() },
                ),
            },
            (OffloadPhase::Mirror, ReplyView::Text(r)) => match r {
                Err(_) => self.to_stub(),
                Ok(name) => OffloadView {
                    target: text::joined_bytes(self.mirror_dir(), encode_utf8(name)),
                    ..self
                }.ask(OffloadPhase::Signal, ActionView::Signal),
            },
            (OffloadPhase::Signal, ReplyView::Ready) => OffloadView { tries: 0, ..self }.ask(
                OffloadPhase::Look,
                ActionView::LookFor { dir: self.mirror_dir(), item: self.target },
            ),
            (OffloadPhase::Look, ReplyView::Seen(seen)) => if seen {
                OffloadView { tries: 0, ..self }.find_spot()
            } else {
                self.ask(OffloadPhase::Pause, ActionView::Sleep { millis: PAUSE_MILLIS })
            },
            (OffloadPhase::Pause, ReplyView::Ready) => if self.tries + 1 < MAX_TRIES {
                OffloadView { tries: (self.tries + 1) as u32, ..self }.ask(
                    OffloadPhase::Look,
                    ActionView::LookFor { dir: self.mirror_dir(), item: self.target },
                )
            } else {
                OffloadView { fp_down: true, ..self }.to_stub()
            },
            (OffloadPhase::Free, ReplyView::Link(kind)) => match kind {
                LinkKind::Missing => self.ask(
                    OffloadPhase::Link,
                    ActionView::MakeLink { target: self.target, path: self.spot() },
                ),
                _ => if self.tries + 1 < LINK_NAMES {
                    OffloadView { tries: (self.tries + 1) as u32, ..self }.find_spot()
                } else {
                    self.to_stub()
                },
            },
            (OffloadPhase::Link, ReplyView::Wrote(r)) => match r {
                Err(_) => self.to_stub(),
                Ok(_) => self.ask(
                    OffloadPhase::Put,
                    ActionView::Rename { from: self.spot(), to: self.path },
                ),
            },
            (OffloadPhase::Put, ReplyView::Wrote(r)) => match r {
                Err(_) => self.ask(
                    OffloadPhase::Undo,
                    ActionView::RemoveFile { path: self.spot() },
                ),
                Ok(_) => self.end(Ok(self.result(true))),
            },
            (OffloadPhase::Undo, ReplyView::Wrote(_)) => self.to_stub(),
            (OffloadPhase::Render, ReplyView::Text(r)) => match r {
                Err(e) => self.end(Err(e)),
                Ok(json) => self.ask(
                    OffloadPhase::Write,
                    ActionView::WriteFile { path: self.path, data: placeholder::framed(json) },
                ),
            },
            (OffloadPhase::Write, ReplyView::Wrote(r)) => match r {
                Err(m) => self.end(Err(Fault::Io(m))),
                Ok(_) => self.end(Ok(self.result(false))),
            },
            _ => self.end(Err(effects::stray())),
        }
    }
}

impl Flow for OffloadView {
    type Out = OffloadResultView;

    open spec fn next(self, reply: ReplyView) -> (OffloadView, StepView<OffloadResultView>) {
        self.respond(reply)
    }
}

/// Begins to offload a file. `inplace` is the name of the mirror area; `fp_down` says
/// that the mirror area is known not to respond.
pub fn offload(path: &str, cfg: &Config, inplace: &str, fp_down: bool) -> (r: (
    Offload,
    Step<OffloadResult>,
))
    ensures
        r.0@ == OffloadView::fresh(path@, cfg@, inplace@, fp_down),
        r.1@ == StepView::<OffloadResultView>::Ask(ActionView::StatFile { path: path@ }),
        (r.0@, r.1@) == crate::laws::offload_start(path@, cfg@, inplace@, fp_down),
{
    let f = Offload {
        phase: OffloadPhase::Kind,
        path: path.to_owned(),
        cfg: cfg.clone(),
        inplace: inplace.to_owned(),
        fp_down,
        data: Vec::new(),
        size: 0,
        mode: 0,
        mtime: 0,
        hash: String::new(),
        key: String::new(),
        deduped: false,
        time: 0,
        root: Vec::new(),
        target: Vec::new(),
        tries: 0,
    };
    (f, Step::Ask(Action::StatFile { path: path.to_owned() }))
}

impl Offload {
    /// Whether the mirror area was found not to respond.
    pub fn fp_down(&self) -> (r: bool)
        ensures
            r == self@.fp_down,
    {
        self.fp_down
    }

    fn record(&self) -> (r: Record)
        ensures
            r@ == self@.record(),
    {
        Record {
            path: self.path.clone(),
            hash: self.hash.clone(),
            size: self.size,
            mode: self.mode,
            mtime: self.mtime,
            s3_key: self.key.clone(),
            offloaded_at: self.time,
            restored: false,
        }
    }

    fn result(&self, transparent: bool) -> (r: OffloadResult)
        ensures
            r@ == self@.result(transparent),
    {
        OffloadResult {
            path: self.path.clone(),
            hash: self.hash.clone(),
            bytes_freed: self.size,
            s3_key: self.key.clone(),
            deduped: self.deduped,
            transparent,
        }
    }

    fn mirror_dir(&self) -> (r: Vec<u8>)
        ensures
            r@ == self@.mirror_dir(),
    {
        text::join_bytes(self.root.as_slice(), self.inplace.as_str().as_bytes())
    }

    fn spot(&self) -> (r: String)
        ensures
            r@ == self@.spot(),
    {
        paths::beside_path(self.path.as_str(), self.tries)
    }

    fn find_spot(&mut self) -> (r: Step<OffloadResult>)
        ensures
            (final(self)@, r@) == old(self)@.find_spot(),
    {
        let a = Action::LinkKind { path: self.spot() };
        self.ask(OffloadPhase::Free, a)
    }

    fn ask(&mut self, phase: OffloadPhase, a: Action) -> (r: Step<OffloadResult>)
        ensures
            (final(self)@, r@) == old(self)@.ask(phase, a@),
    {
        self.phase = phase;
        Step::Ask(a)
    }

    fn fail(&mut self, e: StowError) -> (r: Step<OffloadResult>)
        ensures
            (final(self)@, r@) == old(self)@.end(Err(e@)),
    {
        self.phase = OffloadPhase::Over;
        Step::End(Err(e))
    }

    fn succeed(&mut self, transparent: bool) -> (r: Step<OffloadResult>)
        ensures
            (final(self)@, r@) == old(self)@.end(Ok(old(self)@.result(transparent))),
    {
        let res = self.result(transparent);
        self.phase = OffloadPhase::Over;
        Step::End(Ok(res))
    }

    fn to_stub(&mut self) -> (r: Step<OffloadResult>)
        ensures
            (final(self)@, r@) == old(self)@.to_stub(),
    {
        let stub = Stub {
            path: self.path.clone(),
            hash: self.hash.clone(),
            size: self.size,
            s3_key: self.key.clone(),
            bucket: self.cfg.bucket.clone(),
            region: self.cfg.region.clone(),
        };
        self.ask(OffloadPhase::Render, Action::RenderStub { stub })
    }

    fn look(&mut self) -> (r: Step<OffloadResult>)
        ensures
            (final(self)@, r@) == old(self)@.ask(
                OffloadPhase::Look,
                ActionView::LookFor { dir: old(self)@.mirror_dir(), item: old(self)@.target },
            ),
    {
        let target = text::bytes_of(self.target.as_slice());
        let a = Action::LookFor { dir: self.mirror_dir(), item: target };
        self.ask(OffloadPhase::Look, a)
    }

    fn head(&mut self, phase: OffloadPhase) -> (r: Step<OffloadResult>)
        ensures
            (final(self)@, r@) == old(self)@.ask(
                phase,
                ActionView::HeadObject { at: old(self)@.cfg.remote(), key: old(self)@.key },
            ),
    {
        let a = Action::HeadObject { at: self.cfg.remote(), key: self.key.clone() };
        self.ask(phase, a)
    }

    fn probed(&mut self, found: &placeholder::Probe) -> (r: Step<OffloadResult>)
        requires
            old(self)@.phase is Probe,
        ensures
            (final(self)@, r@) == old(self)@.respond(ReplyView::Probed(found@)),
    {
        match placeholder::is_placeholder(found, self.inplace.as_str()) {
            Err(e) => self.fail(e),
            Ok(there) => {
                if there {
                    let m = text::cat2(self.path.as_str(), " is already offloaded");
                    self.fail(StowError::InvalidArg(m))
                } else if paths::fp_relative(self.path.as_str()).is_some() {
                    let m = text::cat2(
                        self.path.as_str(),
                        " is inside the Stow folder — it's already offload-managed",
                    );
                    self.fail(StowError::InvalidArg(m))
                } else {
                    let a = Action::ReadFile { path: self.path.clone() };
                    self.ask(OffloadPhase::Read, a)
                }
            },
        }
    }

    fn upload(&mut self, found: bool) -> (r: Step<OffloadResult>)
        requires
            old(self)@.phase is Head,
        ensures
            (final(self)@, r@) == old(self)@.respond(ReplyView::Found(Ok(found))),
    {
        let mut data: Vec<u8> = Vec::new();
        std::mem::swap(&mut data, &mut self.data);
        assert(self@ =~= (OffloadView { data: Seq::empty(), ..old(self)@ }));
        if found {
            self.ask(OffloadPhase::Time, Action::Clock)
        } else {
            let a = Action::StoreObject { at: self.cfg.remote(), key: self.key.clone(), data };
            self.ask(OffloadPhase::Store, a)
        }
    }

    /// Takes what came of the action that was asked for, and says what is next.
    #[verifier::spinoff_prover]
    #[verifier::rlimit(40)]
    pub fn step(&mut self, reply: Reply) -> (r: Step<OffloadResult>)
        ensures
            (final(self)@, r@) == old(self)@.respond(reply@),
    {
        match (self.phase, reply) {
            (OffloadPhase::Kind, Reply::Kind(kind)) => {
                match config::ensure_regular_file(self.path.as_str(), kind) {
                    Ok(_) => {
                        let a = Action::Probe { path: self.path.clone() };
                        self.ask(OffloadPhase::Probe, a)
                    },
                    Err(e) => self.fail(e),
                }
            },
            (OffloadPhase::Probe, Reply::Probed(found)) => self.probed(&found),
            (OffloadPhase::Read, Reply::File(read)) => match read {
                Err(m) => self.fail(StowError::Io(m)),
                Ok(data) => {
                    self.data = data;
                    let a = Action::StatMeta { path: self.path.clone() };
                    self.ask(OffloadPhase::Meta, a)
                },
            },
            (OffloadPhase::Meta, Reply::Meta(meta)) => match meta {
                Err(m) => self.fail(StowError::Io(m)),
                Ok(m) => {
                    self.size = m.size;
                    self.mode = m.mode;
                    self.mtime = m.mtime;
                    self.hash = hash::content_hash(self.data.as_slice());
                    self.key = self.cfg.object_key(self.hash.as_str());
                    self.head(OffloadPhase::Known)
                },
            },
            (OffloadPhase::Known, Reply::Found(found)) => match found {
                Err(e) => self.fail(e),
                Ok(there) => {
                    self.deduped = there;
                    self.head(OffloadPhase::Head)
                },
            },
            (OffloadPhase::Head, Reply::Found(found)) => match found {
                Err(e) => self.fail(e),
                Ok(there) => self.upload(there),
            },
            (OffloadPhase::Store, Reply::Done(done)) => match done {
                Err(e) => self.fail(e),
                Ok(_) => self.ask(OffloadPhase::Time, Action::Clock),
            },
            (OffloadPhase::Time, Reply::Time(time)) => {
                self.time = time;
                let a = Action::SaveRecord { rec: self.record() };
                self.ask(OffloadPhase::Save, a)
            },
            (OffloadPhase::Save, Reply::Done(done)) => match done {
                Err(e) => self.fail(e),
                Ok(_) => if self.fp_down {
                    self.to_stub()
                } else {
                    self.ask(OffloadPhase::Mount, Action::FindMount)
                },
            },
            (OffloadPhase::Mount, Reply::Mount(mount)) => match mount {
                None => self.to_stub(),
                Some(root) => {
                    self.root = root;
                    let a = Action::MirrorItem { rec: self.record() };
                    self.ask(OffloadPhase::Mirror, a)
                },
            },
            (OffloadPhase::Mirror, Reply::Text(name)) => match name {
                Err(_) => self.to_stub(),
                Ok(name) => {
                    let dir = self.mirror_dir();
                    self.target = text::join_bytes(dir.as_slice(), name.as_str().as_bytes());
                    self.ask(OffloadPhase::Signal, Action::Signal)
                },
            },
            (OffloadPhase::Signal, Reply::Ready) => {
                self.tries = 0;
                self.look()
            },
            (OffloadPhase::Look, Reply::Seen(seen)) => if seen {
                self.tries = 0;
                self.find_spot()
            } else {
                self.ask(OffloadPhase::Pause, Action::Sleep { millis: PAUSE_MILLIS })
            },
            (OffloadPhase::Pause, Reply::Ready) => if self.tries < MAX_TRIES - 1 {
                self.tries = self.tries + 1;
                self.look()
            } else {
                self.fp_down = true;
                self.to_stub()
            },
            (OffloadPhase::Free, Reply::Link(kind)) => match kind {
                LinkKind::Missing => {
                    let target = text::bytes_of(self.target.as_slice());
                    let a = Action::MakeLink { target, path: self.spot() };
                    self.ask(OffloadPhase::Link, a)
                },
                _ => if self.tries < LINK_NAMES - 1 {
                    self.tries = self.tries + 1;
                    self.find_spot()
                } else {
                    self.to_stub()
                },
            },
            (OffloadPhase::Link, Reply::Wrote(done)) => match done {
                Err(_) => self.to_stub(),
                Ok(_) => {
                    let a = Action::Rename { from: self.spot(), to: self.path.clone() };
                    self.ask(OffloadPhase::Put, a)
                },
            },
            (OffloadPhase::Put, Reply::Wrote(done)) => match done {
                Err(_) => {
                    let a = Action::RemoveFile { path: self.spot() };
                    self.ask(OffloadPhase::Undo, a)
                },
                Ok(_) => self.succeed(true),
            },
            (OffloadPhase::Undo, Reply::Wrote(_)) => self.to_stub(),
            (OffloadPhase::Render, Reply::Text(json)) => match json {
                Err(e) => self.fail(e),
                Ok(json) => {
                    let data = placeholder::frame_placeholder(json.as_str());
                    let a = Action::WriteFile { path: self.path.clone(), data };
                    self.ask(OffloadPhase::Write, a)
                },
            },
            (OffloadPhase::Write, Reply::Wrote(done)) => match done {
                Err(m) => self.fail(StowError::Io(m)),
                Ok(_) => self.succeed(false),
            },
            _ => self.fail(effects::stray_reply()),
        }
    }
}

} // verus!

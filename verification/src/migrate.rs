//! Migration: stubs are replaced by links into the mirror area.
//!
//! The content is in the bucket already, so nothing is transferred. A link is made beside
//! the stub and moved over it in one step, so that there is always something at the path.

use vstd::prelude::*;
use vstd::utf8::*;

use crate::effects;
use crate::effects::{Action, ActionView, Flow, LinkKind, Reply, ReplyView, Step, StepView};
use crate::error::{Fault, StowError};
use crate::index::{Record, RecordView};
use crate::offload::{LINK_NAMES, MAX_TRIES, PAUSE_MILLIS};
use crate::paths;
use crate::placeholder;
use crate::text;

verus! {

/// A file that could not be handled, and why.
pub struct AutoFailure {
    pub path: String,
    pub error: String,
}

/// The content of an `AutoFailure`.
pub struct AutoFailureView {
    pub path: Seq<char>,
    pub error: Seq<char>,
}

impl View for AutoFailure {
    type V = AutoFailureView;

    open spec fn view(&self) -> AutoFailureView {
        AutoFailureView {
            path: self.path@,
            error: self.error@,
        }
    }
}

/// What came of a migration.
pub struct MigrateResult {
    pub migrated: Vec<String>,
    pub failures: Vec<AutoFailure>,
    /// How many files had nothing to be done: restored, missing, or a link already.
    pub skipped: usize,
}

/// The content of some failures.
pub open spec fn failures_of(v: Seq<AutoFailure>) -> Seq<AutoFailureView> {
    v.map_values(|f: AutoFailure| f@)
}

/// The content of a `MigrateResult`.
pub struct MigrateResultView {
    pub migrated: Seq<Seq<char>>,
    pub failures: Seq<AutoFailureView>,
    pub skipped: nat,
}

impl View for MigrateResult {
    type V = MigrateResultView;

    open spec fn view(&self) -> MigrateResultView {
        MigrateResultView {
            migrated: text::texts(self.migrated@),
            failures: failures_of(self.failures@),
            skipped: self.skipped as nat,
        }
    }
}

/// What a migration is waiting for.
#[derive(Clone, Copy, Debug)]
pub enum MigratePhase {
    /// Where the Stow folder is mounted.
    Mount,
    /// The index.
    Index,
    /// The store of items.
    Store,
    /// The offloaded files.
    Records,
    /// Whether a path is a link.
    Kind,
    /// Whether it is a placeholder.
    Probe,
    /// The item in the mirror area.
    Mirror,
    /// The word to the agent.
    Signal,
    /// Whether an item has appeared.
    Look,
    /// The pause before it is looked for again.
    Pause,
    /// Whether a name beside a stub is free.
    Free,
    /// The link of that name.
    Link,
    /// Whether it was moved over the stub.
    Put,
    /// The removal of a link that could not be moved.
    Undo,
    /// Nothing more.
    Over,
}

/// A stub that is about to be replaced, and the item that the link is to point at.
pub struct Swap {
    path: String,
    target: Vec<u8>,
}

/// The content of a `Swap`.
pub struct SwapView {
    pub path: Seq<char>,
    pub target: Seq<u8>,
}

impl View for Swap {
    type V = SwapView;

    closed spec fn view(&self) -> SwapView {
        SwapView { path: self.path@, target: self.target@ }
    }
}

/// A migration under way: `at` counts the files that were looked at, `done` the stubs
/// that were dealt with, and `why` says why a stub could not be replaced.
pub struct Migrate {
    phase: MigratePhase,
    inplace: String,
    root: Vec<u8>,
    records: Vec<Record>,
    at: usize,
    swaps: Vec<Swap>,
    done: usize,
    tries: u32,
    why: String,
    migrated: Vec<String>,
    failures: Vec<AutoFailure>,
    skipped: usize,
}

/// The content of a `Migrate`.
pub struct MigrateView {
    pub phase: MigratePhase,
    pub inplace: Seq<char>,
    pub root: Seq<u8>,
    pub records: Seq<RecordView>,
    pub at: nat,
    pub swaps: Seq<SwapView>,
    pub done: nat,
    pub tries: u32,
    pub why: Seq<char>,
    pub migrated: Seq<Seq<char>>,
    pub failures: Seq<AutoFailureView>,
    pub skipped: nat,
}

impl View for Migrate {
    type V = MigrateView;

    closed spec fn view(&self) -> MigrateView {
        MigrateView {
            phase: self.phase,
            inplace: self.inplace@,
            root: self.root@,
            records: self.records@.map_values(|r: Record| r@),
            at: self.at as nat,
            swaps: self.swaps@.map_values(|s: Swap| s@),
            done: self.done as nat,
            tries: self.tries,
            why: self.why@,
            migrated: text::texts(self.migrated@),
            failures: failures_of(self.failures@),
            skipped: self.skipped as nat,
        }
    }
}

impl MigrateView {
    /// A migration that has not begun.
    pub open spec fn fresh(inplace: Seq<char>) -> MigrateView {
        MigrateView {
            phase: MigratePhase::Mount,
            inplace,
            root: Seq::empty(),
            records: Seq::empty(),
            at: 0,
            swaps: Seq::empty(),
            done: 0,
            tries: 0,
            why: Seq::empty(),
            migrated: Seq::empty(),
            failures: Seq::empty(),
            skipped: 0,
        }
    }

    /// Files are looked at one after the other, each is skipped, has failed or has become
    /// a stub to replace; then those are dealt with one after the other.
    pub open spec fn wf(self) -> bool {
        let looking = self.phase is Kind || self.phase is Probe || self.phase is Mirror;
        let swapping = self.phase is Look || self.phase is Pause || self.phase is Free
            || self.phase is Link || self.phase is Put || self.phase is Undo;
        let begun = looking || swapping || self.phase is Signal;
        &&& begun ==> self.at <= self.records.len()
        &&& begun ==> self.skipped <= self.at
        &&& begun ==> self.done <= self.swaps.len()
        &&& looking ==> self.at < self.records.len()
        &&& swapping ==> self.done < self.swaps.len()
        &&& begun && !swapping ==> {
            &&& self.done == 0
            &&& self.migrated.len() == 0
            &&& self.swaps.len() + self.failures.len() + self.skipped == self.at
        }
        &&& begun && !looking ==> self.at == self.records.len()
        &&& swapping ==> (self.swaps.len() - self.done) + self.migrated.len()
            + self.failures.len() + self.skipped == self.records.len()
        &&& !begun && !(self.phase is Over) ==> {
            &&& self.at == 0
            &&& self.done == 0
            &&& self.skipped == 0
            &&& self.swaps.len() == 0
            &&& self.migrated.len() == 0
            &&& self.failures.len() == 0
        }
    }

    /// The mirror area.
    pub open spec fn mirror_dir(self) -> Seq<u8> {
        text::joined_bytes(self.root, encode_utf8(self.inplace))
    }

    /// Where the link that is to replace a stub is made.
    pub open spec fn spot(self) -> Seq<char> {
        paths::beside(self.swaps[self.done as int].path, self.tries)
    }

    /// Looks whether a name beside a stub is free.
    pub open spec fn find_spot(self) -> (MigrateView, StepView<MigrateResultView>) {
        self.ask(MigratePhase::Free, ActionView::LinkKind { path: self.spot() })
    }

    /// Asks for an action and waits for what comes of it.
    pub open spec fn ask(self, phase: MigratePhase, a: ActionView) -> (
        MigrateView,
        StepView<MigrateResultView>,
    ) {
        (MigrateView { phase, ..self }, StepView::Ask(a))
    }

    /// Ends with an outcome.
    pub open spec fn end(self, r: Result<MigrateResultView, Fault>) -> (MigrateView, StepView<MigrateResultView>) {
        (MigrateView { phase: MigratePhase::Over, ..self }, StepView::End(r))
    }

    /// Looks at the next file, or passes on to replacing stubs.
    pub open spec fn look_on(self) -> (MigrateView, StepView<MigrateResultView>) {
        if self.at < self.records.len() {
            self.ask(
                MigratePhase::Kind,
                ActionView::LinkKind { path: self.records[self.at as int].path },
            )
        } else {
            self.ask(MigratePhase::Signal, ActionView::Signal)
        }
    }

    /// Leaves the file alone.
    pub open spec fn skip(self) -> (MigrateView, StepView<MigrateResultView>) {
        MigrateView {
            skipped: self.skipped + 1,
            at: self.at + 1,
            ..self
        }.look_on()
    }

    /// Looks for the item of the next stub, or ends.
    pub open spec fn swap_on(self) -> (MigrateView, StepView<MigrateResultView>) {
        if self.done < self.swaps.len() {
            MigrateView { tries: 0, ..self }.look()
        } else {
            self.end(
                Ok(
                    MigrateResultView {
                        migrated: self.migrated,
                        failures: self.failures,
                        skipped: self.skipped,
                    },
                ),
            )
        }
    }

    /// Looks for the item of a stub.
    pub open spec fn look(self) -> (MigrateView, StepView<MigrateResultView>) {
        self.ask(
            MigratePhase::Look,
            ActionView::LookFor {
                dir: self.mirror_dir(),
                item: self.swaps[self.done as int].target,
            },
        )
    }

    /// Notes that a stub was not replaced.
    pub open spec fn give_up(self, why: Seq<char>) -> (MigrateView, StepView<MigrateResultView>) {
        MigrateView {
            failures: self.failures.push(
                AutoFailureView { path: self.swaps[self.done as int].path, error: why },
            ),
            done: self.done + 1,
            ..self
        }.swap_on()
    }

    /// What a migration does when `reply` comes in.
    pub open spec fn respond(self, reply: ReplyView) -> (MigrateView, StepView<MigrateResultView>) {
        match (self.phase, reply) {
            (MigratePhase::Mount, ReplyView::Mount(r)) => match r {
                None => self.end(
                    Err(
                        Fault::InvalidConfig(
                            "Stow folder isn't mounted — is StowAgent running?"@,
                        ),
                    ),
                ),
                Some(root) => MigrateView { root, ..self }.ask(
                    MigratePhase::Index,
                    ActionView::OpenIndex,
                ),
            },
            (MigratePhase::Index, ReplyView::Done(r)) => match r {
                Err(e) => self.end(Err(e)),
                Ok(_) => self.ask(MigratePhase::Store, ActionView::OpenStore),
            },
            (MigratePhase::Store, ReplyView::Done(r)) => match r {
                Err(e) => self.end(Err(e)),
                Ok(_) => self.ask(MigratePhase::Records, ActionView::LoadRecords),
            },
            (MigratePhase::Records, ReplyView::Records(r)) => match r {
                Err(e) => self.end(Err(e)),
                Ok(records) => MigrateView { records, ..self }.look_on(),
            },
            (MigratePhase::Kind, ReplyView::Link(kind)) => match kind {
                LinkKind::Other => self.ask(
                    MigratePhase::Probe,
                    ActionView::Probe { path: self.records[self.at as int].path },
                ),
                _ => self.skip(),
            },
            (MigratePhase::Probe, ReplyView::Probed(found)) => match found.placeholder(
                self.inplace,
            ) {
                Ok(true) => self.ask(
                    MigratePhase::Mirror,
                    ActionView::MirrorItem { rec: self.records[self.at as int] },
                ),
                _ => self.skip(),
            },
            (MigratePhase::Mirror, ReplyView::Text(r)) => match r {
                Ok(name) => MigrateView {
                    swaps: self.swaps.push(
                        SwapView {
                            path: self.records[self.at as int].path,
                            target: text::joined_bytes(self.mirror_dir(), encode_utf8(name)),
                        },
                    ),
                    at: self.at + 1,
                    ..self
                }.look_on(),
                Err(e) => MigrateView {
                    failures: self.failures.push(
                        AutoFailureView {
                            path: self.records[self.at as int].path,
                            error: e.text(),
                        },
                    ),
                    at: self.at + 1,
                    ..self
                }.look_on(),
            },
            (MigratePhase::Signal, ReplyView::Ready) => self.swap_on(),
            (MigratePhase::Look, ReplyView::Seen(seen)) => if seen {
                MigrateView { tries: 0, ..self }.find_spot()
            } else {
                self.ask(MigratePhase::Pause, ActionView::Sleep { millis: PAUSE_MILLIS })
            },
            (MigratePhase::Pause, ReplyView::Ready) => if self.tries + 1 < MAX_TRIES {
                MigrateView { tries: (self.tries + 1) as u32, ..self }.look()
            } else {
                self.give_up("mirror never appeared in the Stow folder"@)
            },
            (MigratePhase::Free, ReplyView::Link(kind)) => match kind {
                LinkKind::Missing => self.ask(
                    MigratePhase::Link,
                    ActionView::MakeLink {
                        target: self.swaps[self.done as int].target,
                        path: self.spot(),
                    },
                ),
                _ => if self.tries + 1 < LINK_NAMES {
                    MigrateView { tries: (self.tries + 1) as u32, ..self }.find_spot()
                } else {
                    self.give_up("there is no free name for a link"@)
                },
            },
            (MigratePhase::Link, ReplyView::Wrote(r)) => match r {
                Err(m) => self.give_up(m),
                Ok(_) => self.ask(
                    MigratePhase::Put,
                    ActionView::Rename {
                        from: self.spot(),
                        to: self.swaps[self.done as int].path,
                    },
                ),
            },
            (MigratePhase::Put, ReplyView::Wrote(r)) => match r {
                Err(m) => MigrateView { why: m, ..self }.ask(
                    MigratePhase::Undo,
                    ActionView::RemoveFile { path: self.spot() },
                ),
                Ok(_) => MigrateView {
                    migrated: self.migrated.push(self.swaps[self.done as int].path),
                    done: self.done + 1,
                    ..self
                }.swap_on(),
            },
            (MigratePhase::Undo, ReplyView::Wrote(_)) => self.give_up(self.why),
            _ => self.end(Err(effects::stray())),
        }
    }
}

impl Flow for MigrateView {
    type Out = MigrateResultView;

    open spec fn next(self, reply: ReplyView) -> (MigrateView, StepView<MigrateResultView>) {
        self.respond(reply)
    }
}

/// Begins a migration. `inplace` is the name of the mirror area.
pub fn migrate(inplace: &str) -> (r: (Migrate, Step<MigrateResult>))
    ensures
        r.0@ == MigrateView::fresh(inplace@),
        r.0@.wf(),
        r.1@ == StepView::<MigrateResultView>::Ask(ActionView::FindMount),
        (r.0@, r.1@) == crate::laws::migrate_start(inplace@),
{
    let f = Migrate {
        phase: MigratePhase::Mount,
        inplace: inplace.to_owned(),
        root: Vec::new(),
        records: Vec::new(),
        at: 0,
        swaps: Vec::new(),
        done: 0,
        tries: 0,
        why: String::new(),
        migrated: Vec::new(),
        failures: Vec::new(),
        skipped: 0,
    };
    proof {
        let v = MigrateView::fresh(inplace@);
        assert(f@.records =~= v.records);
        assert(f@.swaps =~= v.swaps);
        assert(f@.migrated =~= v.migrated);
        assert(f@.failures =~= v.failures);
    }
    (f, Step::Ask(Action::FindMount))
}

impl Migrate {
    fn ask(&mut self, phase: MigratePhase, a: Action) -> (r: Step<MigrateResult>)
        ensures
            (final(self)@, r@) == old(self)@.ask(phase, a@),
    {
        self.phase = phase;
        Step::Ask(a)
    }

    fn fail(&mut self, e: StowError) -> (r: Step<MigrateResult>)
        ensures
            (final(self)@, r@) == old(self)@.end(Err(e@)),
    {
        self.phase = MigratePhase::Over;
        Step::End(Err(e))
    }

    fn mirror_dir(&self) -> (r: Vec<u8>)
        ensures
            r@ == self@.mirror_dir(),
    {
        text::join_bytes(self.root.as_slice(), self.inplace.as_str().as_bytes())
    }

    fn spot(&self) -> (r: String)
        requires
            self@.done < self@.swaps.len(),
        ensures
            r@ == self@.spot(),
    {
        paths::beside_path(self.swaps[self.done].path.as_str(), self.tries)
    }

    fn find_spot(&mut self) -> (r: Step<MigrateResult>)
        requires
            old(self)@.done < old(self)@.swaps.len(),
        ensures
            (final(self)@, r@) == old(self)@.find_spot(),
    {
        let a = Action::LinkKind { path: self.spot() };
        self.ask(MigratePhase::Free, a)
    }

    fn look_on(&mut self) -> (r: Step<MigrateResult>)
        ensures
            (final(self)@, r@) == old(self)@.look_on(),
    {
        if self.at < self.records.len() {
            let a = Action::LinkKind { path: self.records[self.at].path.clone() };
            self.ask(MigratePhase::Kind, a)
        } else {
            self.ask(MigratePhase::Signal, Action::Signal)
        }
    }

    fn skip(&mut self) -> (r: Step<MigrateResult>)
        requires
            old(self)@.at < old(self)@.records.len(),
            old(self)@.skipped <= old(self)@.at,
        ensures
            (final(self)@, r@) == old(self)@.skip(),
    {
        assert(self@.records.len() == self.records.len());
        self.skipped = self.skipped + 1;
        self.at = self.at + 1;
        self.look_on()
    }

    fn look(&mut self) -> (r: Step<MigrateResult>)
        requires
            old(self)@.done < old(self)@.swaps.len(),
        ensures
            (final(self)@, r@) == old(self)@.look(),
    {
        let a = Action::LookFor {
            dir: self.mirror_dir(),
            item: text::bytes_of(self.swaps[self.done].target.as_slice()),
        };
        self.ask(MigratePhase::Look, a)
    }

    fn swap_on(&mut self) -> (r: Step<MigrateResult>)
        ensures
            (final(self)@, r@) == old(self)@.swap_on(),
    {
        if self.done < self.swaps.len() {
            self.tries = 0;
            self.look()
        } else {
            self.phase = MigratePhase::Over;
            let migrated = text::clone_texts(&self.migrated);
            let failures = clone_failures(&self.failures);
            Step::End(Ok(MigrateResult { migrated, failures, skipped: self.skipped }))
        }
    }

    fn note_failure(&mut self, path: String, error: String)
        ensures
            final(self)@ == (MigrateView {
                failures: old(self)@.failures.push(AutoFailureView { path: path@, error: error@ }),
                ..old(self)@
            }),
    {
        self.failures.push(AutoFailure { path, error });
        assert(self@.failures =~= old(self)@.failures.push(
            AutoFailureView { path: path@, error: error@ },
        ));
    }

    fn give_up(&mut self, why: String) -> (r: Step<MigrateResult>)
        requires
            old(self)@.done < old(self)@.swaps.len(),
        ensures
            (final(self)@, r@) == old(self)@.give_up(why@),
    {
        assert(self@.swaps.len() == self.swaps.len());
        let path = self.swaps[self.done].path.clone();
        self.note_failure(path, why);
        self.done = self.done + 1;
        self.swap_on()
    }

    fn mirrored(&mut self, name: Result<String, StowError>) -> (r: Step<MigrateResult>)
        requires
            old(self)@.phase is Mirror,
            old(self)@.at < old(self)@.records.len(),
        ensures
            (final(self)@, r@) == old(self)@.respond(
                ReplyView::Text(crate::error::outcome_of(name)),
            ),
    {
        assert(self@.records.len() == self.records.len());
        let path = self.records[self.at].path.clone();
        match name {
            Ok(name) => {
                let dir = self.mirror_dir();
                let target = text::join_bytes(dir.as_slice(), name.as_str().as_bytes());
                self.swaps.push(Swap { path, target });
                assert(self@.swaps =~= old(self)@.swaps.push(
                    SwapView { path: path@, target: target@ },
                ));
                self.at = self.at + 1;
                self.look_on()
            },
            Err(e) => {
                let m = e.message();
                self.note_failure(path, m);
                self.at = self.at + 1;
                self.look_on()
            },
        }
    }

    fn replaced(&mut self) -> (r: Step<MigrateResult>)
        requires
            old(self)@.phase is Put,
            old(self)@.done < old(self)@.swaps.len(),
        ensures
            (final(self)@, r@) == old(self)@.respond(ReplyView::Wrote(Ok(()))),
    {
        assert(self@.swaps.len() == self.swaps.len());
        let path = self.swaps[self.done].path.clone();
        self.migrated.push(path);
        assert(self@.migrated =~= old(self)@.migrated.push(path@));
        self.done = self.done + 1;
        self.swap_on()
    }

    fn probed(&mut self, found: &placeholder::Probe) -> (r: Step<MigrateResult>)
        requires
            old(self)@.phase is Probe,
            old(self)@.at < old(self)@.records.len(),
            old(self)@.skipped <= old(self)@.at,
        ensures
            (final(self)@, r@) == old(self)@.respond(ReplyView::Probed(found@)),
    {
        let stub = match placeholder::is_placeholder(found, self.inplace.as_str()) {
            Ok(there) => there,
            Err(_) => false,
        };
        if stub {
            let a = Action::MirrorItem { rec: self.records[self.at].clone() };
            self.ask(MigratePhase::Mirror, a)
        } else {
            self.skip()
        }
    }

    /// Takes what came of the action that was asked for, and says what is next.
    #[verifier::spinoff_prover]
    #[verifier::rlimit(40)]
    pub fn step(&mut self, reply: Reply) -> (r: Step<MigrateResult>)
        requires
            old(self)@.wf(),
        ensures
            (final(self)@, r@) == old(self)@.respond(reply@),
            final(self)@.wf(),
    {
        proof {
            lemma_wf_kept(self@, reply@);
        }
        match (self.phase, reply) {
            (MigratePhase::Mount, Reply::Mount(mount)) => match mount {
                None => self.fail(
                    StowError::InvalidConfig(
                        "Stow folder isn't mounted — is StowAgent running?".to_owned(),
                    ),
                ),
                Some(root) => {
                    self.root = root;
                    self.ask(MigratePhase::Index, Action::OpenIndex)
                },
            },
            (MigratePhase::Index, Reply::Done(done)) => match done {
                Err(e) => self.fail(e),
                Ok(_) => self.ask(MigratePhase::Store, Action::OpenStore),
            },
            (MigratePhase::Store, Reply::Done(done)) => match done {
                Err(e) => self.fail(e),
                Ok(_) => self.ask(MigratePhase::Records, Action::LoadRecords),
            },
            (MigratePhase::Records, Reply::Records(records)) => match records {
                Err(e) => self.fail(e),
                Ok(records) => {
                    self.records = records;
                    self.look_on()
                },
            },
            (MigratePhase::Kind, Reply::Link(kind)) => match kind {
                LinkKind::Other => {
                    let a = Action::Probe { path: self.records[self.at].path.clone() };
                    self.ask(MigratePhase::Probe, a)
                },
                _ => self.skip(),
            },
            (MigratePhase::Probe, Reply::Probed(found)) => self.probed(&found),
            (MigratePhase::Mirror, Reply::Text(name)) => self.mirrored(name),
            (MigratePhase::Signal, Reply::Ready) => self.swap_on(),
            (MigratePhase::Look, Reply::Seen(seen)) => if seen {
                self.tries = 0;
                self.find_spot()
            } else {
                self.ask(MigratePhase::Pause, Action::Sleep { millis: PAUSE_MILLIS })
            },
            (MigratePhase::Pause, Reply::Ready) => if self.tries < MAX_TRIES - 1 {
                self.tries = self.tries + 1;
                self.look()
            } else {
                self.give_up("mirror never appeared in the Stow folder".to_owned())
            },
            (MigratePhase::Free, Reply::Link(kind)) => match kind {
                LinkKind::Missing => {
                    let a = Action::MakeLink {
                        target: text::bytes_of(self.swaps[self.done].target.as_slice()),
                        path: self.spot(),
                    };
                    self.ask(MigratePhase::Link, a)
                },
                _ => if self.tries < LINK_NAMES - 1 {
                    self.tries = self.tries + 1;
                    self.find_spot()
                } else {
                    self.give_up("there is no free name for a link".to_owned())
                },
            },
            (MigratePhase::Link, Reply::Wrote(done)) => match done {
                Err(m) => self.give_up(m),
                Ok(_) => {
                    let a = Action::Rename {
                        from: self.spot(),
                        to: self.swaps[self.done].path.clone(),
                    };
                    self.ask(MigratePhase::Put, a)
                },
            },
            (MigratePhase::Put, Reply::Wrote(done)) => match done {
                Err(m) => {
                    let a = Action::RemoveFile { path: self.spot() };
                    self.why = m;
                    self.ask(MigratePhase::Undo, a)
                },
                Ok(_) => self.replaced(),
            },
            (MigratePhase::Undo, Reply::Wrote(_)) => {
                let why = self.why.clone();
                self.give_up(why)
            },
            _ => self.fail(effects::stray_reply()),
        }
    }
}

/// A copy of some failures.
pub fn clone_failures(v: &Vec<AutoFailure>) -> (r: Vec<AutoFailure>)
    ensures
        failures_of(r@) == failures_of(v@),
{
    let mut out: Vec<AutoFailure> = Vec::new();
    let mut i: usize = 0;
    while i < v.len()
        invariant
            i <= v.len(),
            out@ == v@.take(i as int),
        decreases v.len() - i,
    {
        out.push(AutoFailure { path: v[i].path.clone(), error: v[i].error.clone() });
        i += 1;
        assert(out@ =~= v@.take(i as int));
    }
    assert(out@ =~= v@);
    out
}

/// A migration stays in order.
proof fn lemma_wf_kept(s: MigrateView, reply: ReplyView)
    requires
        s.wf(),
    ensures
        s.respond(reply).0.wf(),
{
}

} // verus!

//! A model of the world around the flows, in which every call works, and the laws that
//! hold of whole runs in it: what is taken away can be brought back.

use vstd::prelude::*;
use vstd::utf8::*;

use crate::archive;
use crate::archive::{PackFault, WalkedView};
use crate::config::ConfigView;
use crate::effects::{ActionView, Flow, LinkKind, Meta, ReplyView, StepView};
use crate::error::Fault;
use crate::folder;
use crate::folder::{CreatePhase, CreateView, FetchPhase, FetchView, UpdatePhase, UpdateView};
use crate::hash;
use crate::index::{RecordView, ShareRowView};
use crate::offload;
use crate::offload::{OffloadPhase, OffloadView};
use crate::paths;
use crate::placeholder;
use crate::placeholder::{ProbeView, StubView};
use crate::provider::ItemView;
use crate::restore::{RestorePhase, RestoreResultView, RestoreView};
use crate::share::{SharePhase, ShareView, UnsharePhase, UnshareView};
use crate::text;

verus! {

/// What is at a path.
pub enum Node {
    File { bytes: Seq<u8>, mode: u32, mtime: i64, atime: i64 },
    Link { target: Seq<u8> },
}

/// The world: the files, the objects by bucket and key, the index, the store of items,
/// and what the host answers to the rest.
pub struct World {
    pub files: Map<Seq<char>, Node>,
    /// The directories, each with what a walk through it comes by.
    pub trees: Map<Seq<char>, Seq<WalkedView>>,
    /// The name of the mirror area, of which nothing is packed.
    pub area: Seq<char>,
    pub objects: Map<(Seq<char>, Seq<char>), Seq<u8>>,
    pub records: Map<Seq<char>, RecordView>,
    pub shares: Map<Seq<char>, ShareRowView>,
    pub items: Map<Seq<char>, ItemView>,
    pub clock: i64,
    pub random: Seq<u8>,
    pub mount: Option<Seq<u8>>,
    /// Whether items appear in the mirror area.
    pub responds: bool,
    /// The name of a file in the mirror area.
    pub mirror_name: spec_fn(Seq<char>) -> Seq<char>,
    /// How a stub is described.
    pub json: spec_fn(StubView) -> Seq<char>,
}

impl World {
    /// What is found at a path.
    pub open spec fn probe(self, path: Seq<char>) -> ProbeView {
        if !self.files.dom().contains(path) {
            ProbeView::Nothing
        } else {
            match self.files[path] {
                Node::Link { target } => ProbeView::Link(Some(text::utf8_lossy(target))),
                Node::File { bytes, mode, mtime, atime } => ProbeView::File {
                    len: bytes.len() as u64,
                    head: Ok(bytes.take(placeholder::magic().len() as int)),
                },
            }
        }
    }

    /// Whether there is a regular file at a path.
    pub open spec fn has_file(self, path: Seq<char>) -> bool {
        self.files.dom().contains(path) && self.files[path] is File
    }

    /// Whether there is a directory at a path.
    pub open spec fn has_dir(self, path: Seq<char>) -> bool {
        self.trees.dom().contains(path) && !self.files.dom().contains(path)
    }

    /// A file after it was written, with the permissions that it had.
    pub open spec fn written(self, path: Seq<char>, data: Seq<u8>) -> Node {
        Node::File {
            bytes: data,
            mode: if self.has_file(path) {
                self.files[path]->mode
            } else {
                0o644
            },
            mtime: self.clock,
            atime: self.clock,
        }
    }

    /// The world after an action, and the reply to it.
    pub open spec fn react(self, a: ActionView) -> (World, ReplyView) {
        match a {
            ActionView::StatFile { path } => (self, ReplyView::Kind(Ok(self.has_file(path)))),
            ActionView::StatNode { path } => (self, ReplyView::Kind(Ok(self.has_dir(path)))),
            ActionView::Probe { path } => (self, ReplyView::Probed(self.probe(path))),
            ActionView::LinkKind { path } => (
                self,
                ReplyView::Link(
                    if !self.files.dom().contains(path) {
                        LinkKind::Missing
                    } else if self.files[path] is Link {
                        LinkKind::Link
                    } else {
                        LinkKind::Other
                    },
                ),
            ),
            ActionView::ReadFile { path } => (
                self,
                ReplyView::File(
                    if self.has_file(path) {
                        Ok(self.files[path]->bytes)
                    } else {
                        Err("there is no such file"@)
                    },
                ),
            ),
            ActionView::StatMeta { path } => (
                self,
                ReplyView::Meta(
                    if self.has_file(path) {
                        Ok(
                            Meta {
                                size: self.files[path]->bytes.len() as i64,
                                mode: self.files[path]->mode,
                                mtime: self.files[path]->mtime,
                            },
                        )
                    } else {
                        Err("there is no such file"@)
                    },
                ),
            ),
            ActionView::WriteFile { path, data } => (
                World { files: self.files.insert(path, self.written(path, data)), ..self },
                ReplyView::Wrote(Ok(())),
            ),
            ActionView::RemoveFile { path } => (
                World { files: self.files.remove(path), ..self },
                ReplyView::Wrote(Ok(())),
            ),
            ActionView::MakeLink { target, path } => if self.files.dom().contains(path) {
                (self, ReplyView::Wrote(Err("there is such a file"@)))
            } else {
                (
                    World { files: self.files.insert(path, Node::Link { target }), ..self },
                    ReplyView::Wrote(Ok(())),
                )
            },
            ActionView::Rename { from, to } => (
                World { files: self.files.remove(from).insert(to, self.files[from]), ..self },
                ReplyView::Wrote(Ok(())),
            ),
            ActionView::SetMode { path, mode } => (
                World {
                    files: self.files.insert(
                        path,
                        Node::File {
                            bytes: self.files[path]->bytes,
                            mode,
                            mtime: self.files[path]->mtime,
                            atime: self.files[path]->atime,
                        },
                    ),
                    ..self
                },
                ReplyView::Wrote(Ok(())),
            ),
            ActionView::SetTimes { path, atime, mtime } => (
                World {
                    files: self.files.insert(
                        path,
                        Node::File {
                            bytes: self.files[path]->bytes,
                            mode: self.files[path]->mode,
                            mtime,
                            atime,
                        },
                    ),
                    ..self
                },
                ReplyView::Wrote(Ok(())),
            ),
            ActionView::LookFor { dir, item } => (self, ReplyView::Seen(self.responds)),
            ActionView::ZipTree { path } => (
                self,
                ReplyView::Zipped(
                    match archive::packed(self.trees[path], self.area) {
                        Ok(entries) => Ok(
                            (
                                archive::archive_bytes(entries),
                                archive::files_in(entries) as usize,
                            ),
                        ),
                        Err(PackFault::Read(m)) => Err(Fault::Io(m)),
                        Err(PackFault::Refused) => Err(Fault::Io("there is such an entry"@)),
                    },
                ),
            ),
            ActionView::HeadObject { at, key } => (
                self,
                ReplyView::Found(Ok(self.objects.dom().contains((at.bucket, key)))),
            ),
            ActionView::StoreObject { at, key, data } => (
                World { objects: self.objects.insert((at.bucket, key), data), ..self },
                ReplyView::Done(Ok(())),
            ),
            ActionView::GetObject { at, key } => (
                self,
                ReplyView::Object(
                    if self.objects.dom().contains((at.bucket, key)) {
                        Ok(self.objects[(at.bucket, key)])
                    } else {
                        Err(Fault::Network("there is no such object"@))
                    },
                ),
            ),
            ActionView::CopyObject { at, from, key } => (
                World {
                    objects: self.objects.insert(
                        (at.bucket, key),
                        self.objects[(at.bucket, from)],
                    ),
                    ..self
                },
                ReplyView::Done(Ok(())),
            ),
            ActionView::DeleteObject { at, key } => (
                World { objects: self.objects.remove((at.bucket, key)), ..self },
                ReplyView::Done(Ok(())),
            ),
            ActionView::Clock => (self, ReplyView::Time(self.clock)),
            ActionView::RandomBytes { count } => (self, ReplyView::Random(Ok(self.random))),
            ActionView::LoadRecord { path } => (
                self,
                ReplyView::Record(
                    Ok(
                        if self.records.dom().contains(path) {
                            Some(self.records[path])
                        } else {
                            None
                        },
                    ),
                ),
            ),
            ActionView::SaveRecord { rec } => (
                World { records: self.records.insert(rec.path, rec), ..self },
                ReplyView::Done(Ok(())),
            ),
            ActionView::MarkRestored { path } => (
                World {
                    records: self.records.insert(
                        path,
                        RecordView { restored: true, ..self.records[path] },
                    ),
                    ..self
                },
                ReplyView::Done(Ok(())),
            ),
            ActionView::LoadShare { token } => (
                self,
                ReplyView::Share(
                    Ok(
                        if self.shares.dom().contains(token) {
                            Some(self.shares[token])
                        } else {
                            None
                        },
                    ),
                ),
            ),
            ActionView::SaveShare { row } => (
                World { shares: self.shares.insert(row.token, row), ..self },
                ReplyView::Done(Ok(())),
            ),
            ActionView::ForgetShare { token } => (
                World { shares: self.shares.remove(token), ..self },
                ReplyView::Done(Ok(())),
            ),
            ActionView::LoadItem { item_id } => (
                self,
                ReplyView::Item(
                    Ok(
                        if self.items.dom().contains(item_id) {
                            Some(self.items[item_id])
                        } else {
                            None
                        },
                    ),
                ),
            ),
            ActionView::SaveItem { item } => (
                World { items: self.items.insert(item.item_id, item), ..self },
                ReplyView::Done(Ok(())),
            ),
            ActionView::SetDataless { item_id, dataless } => (
                World {
                    items: self.items.insert(
                        item_id,
                        ItemView { dataless, ..self.items[item_id] },
                    ),
                    ..self
                },
                ReplyView::Done(Ok(())),
            ),
            ActionView::TouchAccess { item_id, ts } => (
                World {
                    items: self.items.insert(
                        item_id,
                        ItemView { last_access: ts, ..self.items[item_id] },
                    ),
                    ..self
                },
                ReplyView::Done(Ok(())),
            ),
            ActionView::FindMount => (self, ReplyView::Mount(self.mount)),
            ActionView::MirrorItem { rec } => (
                self,
                ReplyView::Text(Ok((self.mirror_name)(rec.path))),
            ),
            ActionView::RenderStub { stub } => (self, ReplyView::Text(Ok((self.json)(stub)))),
            ActionView::OpenIndex | ActionView::OpenStore | ActionView::OpenShares { .. } => (
                self,
                ReplyView::Done(Ok(())),
            ),
            _ => (self, ReplyView::Ready),
        }
    }
}

/// A flow, what it does next, and the world, after at most `steps` more actions.
pub open spec fn play<F: Flow>(f: F, next: StepView<F::Out>, w: World, steps: nat) -> (
    F,
    StepView<F::Out>,
    World,
)
    decreases steps,
{
    if steps == 0 {
        (f, next, w)
    } else {
        match next {
            StepView::End(_) => (f, next, w),
            StepView::Ask(a) => {
                let (w2, reply) = w.react(a);
                let (f2, next2) = f.next(reply);
                play(f2, next2, w2, (steps - 1) as nat)
            },
        }
    }
}

/// One action of a run.
proof fn lemma_play<F: Flow>(f: F, a: ActionView, w: World, steps: nat)
    requires
        steps > 0,
    ensures
        play(f, StepView::Ask(a), w, steps) == play(
            f.next(w.react(a).1).0,
            f.next(w.react(a).1).1,
            w.react(a).0,
            (steps - 1) as nat,
        ),
{
}

/// A run that has ended.
proof fn lemma_play_end<F: Flow>(f: F, r: Result<F::Out, Fault>, w: World, steps: nat)
    ensures
        play(f, StepView::End(r), w, steps) == (f, StepView::<F::Out>::End(r), w),
{
}

// ---- offloading and restoring -------------------------------------------------------

/// Whether a file can be offloaded: it is a regular file, no placeholder, and not in the
/// Stow folder.
pub open spec fn can_offload(w: World, path: Seq<char>, inplace: Seq<char>) -> bool {
    &&& w.has_file(path)
    &&& w.probe(path).placeholder(inplace) == Ok::<bool, Fault>(false)
    &&& !paths::in_stow_folder(path)
}

/// Whether the bucket holds nothing else under the key of some content.
pub open spec fn key_is_free_for(
    w: World,
    bucket: Seq<char>,
    key: Seq<char>,
    data: Seq<u8>,
) -> bool {
    w.objects.dom().contains((bucket, key)) ==> w.objects[(bucket, key)] == data
}

/// The record of a file that is offloaded.
pub open spec fn record_of(w: World, path: Seq<char>, cfg: ConfigView) -> RecordView {
    let file = w.files[path];
    let hash = hash::blake3_hex(file->bytes);
    RecordView {
        path,
        hash,
        size: file->bytes.len() as i64,
        mode: file->mode,
        mtime: file->mtime,
        s3_key: cfg.key_for(hash),
        offloaded_at: w.clock,
        restored: false,
    }
}

/// The world after the content of a file was stored and the file recorded.
pub open spec fn secured(w: World, path: Seq<char>, cfg: ConfigView) -> World {
    let rec = record_of(w, path, cfg);
    World {
        objects: w.objects.insert((cfg.bucket, rec.s3_key), w.files[path]->bytes),
        records: w.records.insert(path, rec),
        ..w
    }
}

/// The mirror area is looked at until it is given up.
proof fn lemma_polls(s: OffloadView, w: World, n: nat)
    requires
        s.phase is Look,
        s.tries < offload::MAX_TRIES,
        !w.responds,
        n >= 2 * (offload::MAX_TRIES - s.tries),
    ensures
        ({
            let t = OffloadView {
                phase: OffloadPhase::Render,
                fp_down: true,
                tries: (offload::MAX_TRIES - 1) as u32,
                ..s
            };
            play(
                s,
                StepView::Ask(ActionView::LookFor { dir: s.mirror_dir(), item: s.target }),
                w,
                n,
            ) == play(
                t,
                StepView::Ask(ActionView::RenderStub { stub: s.stub() }),
                w,
                (n - 2 * (offload::MAX_TRIES - s.tries)) as nat,
            )
        }),
    decreases offload::MAX_TRIES - s.tries,
{
    let look = ActionView::LookFor { dir: s.mirror_dir(), item: s.target };
    lemma_play(s, look, w, n);
    let p = OffloadView { phase: OffloadPhase::Pause, ..s };
    let sleep = ActionView::Sleep { millis: offload::PAUSE_MILLIS };
    lemma_play(p, sleep, w, (n - 1) as nat);
    if s.tries + 1 < offload::MAX_TRIES {
        let q = OffloadView { tries: (s.tries + 1) as u32, ..s };
        assert(q.mirror_dir() == s.mirror_dir());
        assert(q.stub() == s.stub());
        lemma_polls(q, w, (n - 2) as nat);
    }
}

/// The outcome of a run that has put a placeholder in the place of a file.
spec fn placed(
    r: (OffloadView, StepView<offload::OffloadResultView>, World),
    w: World,
    path: Seq<char>,
    deduped: bool,
) -> bool {
    &&& r.1 matches StepView::End(o) && o is Ok && o->Ok_0.deduped == deduped
    &&& r.2.files.dom().contains(path)
    &&& r.2.files.remove(path) == w.files.remove(path)
    &&& r.2 == (World { files: r.2.files, ..w })
}

/// The mirror area has the item, and a link to it is put in the place of a file: one that
/// is made at the first free name beside it. Where there is none, a stub is.
proof fn lemma_link_placed(s: OffloadView, w: World, n: nat)
    requires
        s.phase is Free,
        s.tries < offload::LINK_NAMES,
        w.files.dom().contains(s.path),
        n >= offload::LINK_NAMES - s.tries + 10,
    ensures
        placed(
            play(s, StepView::Ask(ActionView::LinkKind { path: s.spot() }), w, n),
            w,
            s.path,
            s.deduped,
        ),
    decreases offload::LINK_NAMES - s.tries,
{
    let look = ActionView::LinkKind { path: s.spot() };
    lemma_play(s, look, w, n);
    if w.files.dom().contains(s.spot()) {
        if s.tries + 1 < offload::LINK_NAMES {
            let t = OffloadView { tries: (s.tries + 1) as u32, ..s };
            lemma_link_placed(t, w, (n - 1) as nat);
        } else {
            let t = OffloadView { phase: OffloadPhase::Render, ..s };
            assert(t.stub() == s.stub());
            lemma_stub_placed(t, w, (n - 1) as nat);
        }
    } else {
        let link = ActionView::MakeLink { target: s.target, path: s.spot() };
        let t1 = OffloadView { phase: OffloadPhase::Link, ..s };
        lemma_play(t1, link, w, (n - 1) as nat);
        let w1 = w.react(link).0;
        let put = ActionView::Rename { from: s.spot(), to: s.path };
        let t2 = OffloadView { phase: OffloadPhase::Put, ..s };
        assert(t1.spot() == s.spot());
        lemma_play(t2, put, w1, (n - 2) as nat);
        let w2 = w1.react(put).0;
        let t3 = OffloadView { phase: OffloadPhase::Over, ..s };
        assert(t2.result(true) == s.result(true));
        lemma_play_end(t3, Ok(s.result(true)), w2, (n - 3) as nat);
        assert(w2.files.remove(s.path) =~= w.files.remove(s.path));
    }
}

/// A stub is put in the place of a file.
proof fn lemma_stub_placed(s: OffloadView, w: World, n: nat)
    requires
        s.phase is Render,
        n >= 3,
    ensures
        placed(
            play(s, StepView::Ask(ActionView::RenderStub { stub: s.stub() }), w, n),
            w,
            s.path,
            s.deduped,
        ),
{
    let a = ActionView::RenderStub { stub: s.stub() };
    lemma_play(s, a, w, n);
    let p = OffloadView { phase: OffloadPhase::Write, ..s };
    let json = (w.json)(s.stub());
    let b = ActionView::WriteFile { path: s.path, data: placeholder::framed(json) };
    lemma_play(p, b, w, (n - 1) as nat);
    let w2 = w.react(b).0;
    let e = OffloadView { phase: OffloadPhase::Over, ..s };
    lemma_play_end(e, Ok(s.result(false)), w2, (n - 2) as nat);
    assert(w2.files.remove(s.path) =~= w.files.remove(s.path));
}

/// A placeholder is put in the place of a file that was recorded.
proof fn lemma_placed(s: OffloadView, w: World, n: nat)
    requires
        s.phase is Save,
        w.files.dom().contains(s.path),
        n >= 1120,
    ensures
        ({
            let t = s.respond(ReplyView::Done(Ok(())));
            placed(play(t.0, t.1, w, n), w, s.path, s.deduped)
        }),
{
    if s.fp_down {
        let t = OffloadView { phase: OffloadPhase::Render, ..s };
        assert(t.stub() == s.stub());
        lemma_stub_placed(t, w, n);
    } else {
        lemma_placed_with_mirror(s, w, n);
    }
}

/// A placeholder is put in the place of a file that was recorded, while the mirror area
/// is not known to be out of order.
proof fn lemma_placed_with_mirror(s: OffloadView, w: World, n: nat)
    requires
        s.phase is Save,
        !s.fp_down,
        w.files.dom().contains(s.path),
        n >= 1120,
    ensures
        ({
            let t = s.respond(ReplyView::Done(Ok(())));
            placed(play(t.0, t.1, w, n), w, s.path, s.deduped)
        }),
{
    let t1 = OffloadView { phase: OffloadPhase::Mount, ..s };
    lemma_play(t1, ActionView::FindMount, w, n);
    match w.mount {
        None => {
            let t = OffloadView { phase: OffloadPhase::Render, ..s };
            assert(t.stub() == s.stub());
            lemma_stub_placed(t, w, (n - 1) as nat);
        },
        Some(root) => {
            let t2 = OffloadView { phase: OffloadPhase::Mirror, root, ..s };
            let mirror = ActionView::MirrorItem { rec: t1.record() };
            assert(t1.respond(ReplyView::Mount(w.mount)) == (
                t2,
                StepView::<offload::OffloadResultView>::Ask(mirror),
            ));
            lemma_play(t2, mirror, w, (n - 1) as nat);
            let name = (w.mirror_name)(s.path);
            let target = text::joined_bytes(t2.mirror_dir(), encode_utf8(name));
            let t3 = OffloadView { phase: OffloadPhase::Signal, target, ..t2 };
            lemma_play(t3, ActionView::Signal, w, (n - 2) as nat);
            let t4 = OffloadView { phase: OffloadPhase::Look, tries: 0, ..t3 };
            let look = ActionView::LookFor { dir: t3.mirror_dir(), item: target };
            assert(t3.respond(ReplyView::Ready) == (
                t4,
                StepView::<offload::OffloadResultView>::Ask(look),
            ));
            assert(t4.mirror_dir() == t3.mirror_dir());
            if w.responds {
                lemma_play(t4, look, w, (n - 3) as nat);
                let t5 = OffloadView { phase: OffloadPhase::Free, tries: 0, ..t4 };
                lemma_link_placed(t5, w, (n - 4) as nat);
            } else {
                lemma_polls(t4, w, (n - 3) as nat);
                let t = OffloadView {
                    phase: OffloadPhase::Render,
                    fp_down: true,
                    tries: (offload::MAX_TRIES - 1) as u32,
                    ..t4
                };
                assert(t.stub() == t4.stub());
                lemma_stub_placed(t, w, (n - 3 - 2 * offload::MAX_TRIES) as nat);
            }
        },
    }
}

/// What a run of an offload comes to.
#[verifier::spinoff_prover]
#[verifier::rlimit(60)]
proof fn lemma_offload(w: World, path: Seq<char>, cfg: ConfigView, inplace: Seq<char>, fp_down: bool)
    requires
        can_offload(w, path, inplace),
        key_is_free_for(
            w,
            cfg.bucket,
            record_of(w, path, cfg).s3_key,
            w.files[path]->bytes,
        ),
    ensures
        placed(
            play(
                OffloadView::fresh(path, cfg, inplace, fp_down),
                StepView::Ask(ActionView::StatFile { path }),
                w,
                1130,
            ),
            secured(w, path, cfg),
            path,
            w.objects.dom().contains((cfg.bucket, record_of(w, path, cfg).s3_key)),
        ),
{
    let file = w.files[path];
    let rec = record_of(w, path, cfg);
    let at = cfg.remote();
    let s0 = OffloadView::fresh(path, cfg, inplace, fp_down);
    lemma_play(s0, ActionView::StatFile { path }, w, 1130);
    let s1 = OffloadView { phase: OffloadPhase::Probe, ..s0 };
    lemma_play(s1, ActionView::Probe { path }, w, 1129);
    let s2 = OffloadView { phase: OffloadPhase::Read, ..s1 };
    lemma_play(s2, ActionView::ReadFile { path }, w, 1128);
    let s3 = OffloadView { phase: OffloadPhase::Meta, data: file->bytes, ..s2 };
    lemma_play(s3, ActionView::StatMeta { path }, w, 1127);
    let s4 = OffloadView {
        phase: OffloadPhase::Known,
        size: rec.size,
        mode: rec.mode,
        mtime: rec.mtime,
        hash: rec.hash,
        key: rec.s3_key,
        ..s3
    };
    let head = ActionView::HeadObject { at, key: rec.s3_key };
    lemma_play(s4, head, w, 1126);
    let there = w.objects.dom().contains((cfg.bucket, rec.s3_key));
    let s5 = OffloadView { phase: OffloadPhase::Head, deduped: there, ..s4 };
    lemma_play(s5, head, w, 1125);
    let s6 = OffloadView { phase: OffloadPhase::Time, data: Seq::empty(), ..s5 };
    let objects = w.objects.insert((cfg.bucket, rec.s3_key), file->bytes);
    let w6 = World { objects, ..w };
    let left: nat = if there {
        1124
    } else {
        1123
    };
    if there {
        assert(objects =~= w.objects);
    } else {
        let store = ActionView::StoreObject { at, key: rec.s3_key, data: file->bytes };
        let s55 = OffloadView { phase: OffloadPhase::Store, data: Seq::empty(), ..s5 };
        lemma_play(s55, store, w, 1124);
    }
    lemma_play(s6, ActionView::Clock, w6, left);
    let s7 = OffloadView { phase: OffloadPhase::Save, time: w.clock, ..s6 };
    assert(s7.record() == rec);
    let save = ActionView::SaveRecord { rec };
    lemma_play(s7, save, w6, (left - 1) as nat);
    lemma_placed(s7, secured(w, path, cfg), (left - 2) as nat);
}

/// What a run of a restore comes to: the content is written, with the mode and the
/// modification time that were recorded.
#[verifier::spinoff_prover]
#[verifier::rlimit(60)]
proof fn lemma_restore(w: World, path: Seq<char>, cfg: ConfigView)
    requires
        w.records.dom().contains(path),
        w.objects.dom().contains((cfg.bucket, w.records[path].s3_key)),
        hash::blake3_hex(w.objects[(cfg.bucket, w.records[path].s3_key)])
            == w.records[path].hash,
    ensures
        ({
            let rec = w.records[path];
            let r = play(
                RestoreView::fresh(path, cfg),
                StepView::Ask(ActionView::LoadRecord { path }),
                w,
                20,
            );
            &&& r.1 == StepView::<RestoreResultView>::End(
                Ok(
                    RestoreResultView {
                        path,
                        bytes_restored: (w.objects[(cfg.bucket, rec.s3_key)].len() as usize) as i64,
                    },
                ),
            )
            &&& r.2.files == w.files.insert(
                path,
                Node::File {
                    bytes: w.objects[(cfg.bucket, rec.s3_key)],
                    mode: rec.mode,
                    mtime: rec.mtime,
                    atime: w.clock,
                },
            )
            &&& r.2.records == w.records.insert(path, RecordView { restored: true, ..rec })
            &&& r.2.objects == w.objects
        }),
{
    let rec = w.records[path];
    let data = w.objects[(cfg.bucket, rec.s3_key)];
    let at = cfg.remote();
    let s0 = RestoreView::fresh(path, cfg);
    lemma_play(s0, ActionView::LoadRecord { path }, w, 20);
    let s1 = RestoreView {
        phase: RestorePhase::Fetch,
        hash: rec.hash,
        key: rec.s3_key,
        mode: rec.mode,
        mtime: rec.mtime,
        ..s0
    };
    lemma_play(s1, ActionView::GetObject { at, key: rec.s3_key }, w, 19);
    let s2 = RestoreView { phase: RestorePhase::Kind, data, len: data.len() as usize, ..s1 };
    lemma_play(s2, ActionView::LinkKind { path }, w, 18);
    let linked = w.files.dom().contains(path) && w.files[path] is Link;
    let w3 = if linked {
        World { files: w.files.remove(path), ..w }
    } else {
        w
    };
    let left: nat = if linked {
        14
    } else {
        17
    };
    let s3 = RestoreView { phase: RestorePhase::Write, data: Seq::empty(), ..s2 };
    let write = ActionView::WriteFile { path, data };
    if linked {
        let u1 = RestoreView { phase: RestorePhase::Unlink, ..s2 };
        lemma_play(u1, ActionView::RemoveFile { path }, w, 17);
        let u2 = RestoreView { phase: RestorePhase::Unmirror, ..s2 };
        lemma_play(u2, ActionView::RemoveMirror { path }, w3, 16);
        let u3 = RestoreView { phase: RestorePhase::Signal, ..s2 };
        lemma_play(u3, ActionView::Signal, w3, 15);
        assert(u3.write() == (s3, StepView::<RestoreResultView>::Ask(write)));
    } else {
        assert(s2.write() == (s3, StepView::<RestoreResultView>::Ask(write)));
    }
    lemma_play(s3, write, w3, left);
    let w4 = w3.react(write).0;
    let s4 = RestoreView { phase: RestorePhase::Mode, ..s3 };
    let set_mode = ActionView::SetMode { path, mode: rec.mode };
    lemma_play(s4, set_mode, w4, (left - 1) as nat);
    let w5 = w4.react(set_mode).0;
    let s5 = RestoreView { phase: RestorePhase::Time, ..s3 };
    lemma_play(s5, ActionView::Clock, w5, (left - 2) as nat);
    let s6 = RestoreView { phase: RestorePhase::Times, ..s3 };
    let set_times = ActionView::SetTimes { path, atime: w.clock, mtime: rec.mtime };
    lemma_play(s6, set_times, w5, (left - 3) as nat);
    let w6 = w5.react(set_times).0;
    let s7 = RestoreView { phase: RestorePhase::Mark, ..s3 };
    let mark = ActionView::MarkRestored { path };
    lemma_play(s7, mark, w6, (left - 4) as nat);
    let w7 = w6.react(mark).0;
    let s8 = RestoreView { phase: RestorePhase::Over, ..s3 };
    lemma_play_end(
        s8,
        Ok(RestoreResultView { path, bytes_restored: s3.len as i64 }),
        w7,
        (left - 5) as nat,
    );
    assert(w7.files =~= w.files.insert(
        path,
        Node::File { bytes: data, mode: rec.mode, mtime: rec.mtime, atime: w.clock },
    ));
}

/// What is offloaded comes back byte for byte: a file that was offloaded and then
/// restored has the bytes, the mode and the modification time that it had, whichever
/// placeholder stood in its place; it counts as just accessed, and no other file is
/// touched. Its record stays but for the flag that it is restored, its object stays, and
/// the outcome tells its path and its size. Only where the bucket holds other content with
/// the same hash, the hash cannot tell.
pub proof fn law_restoring_undoes_offloading(
    w: World,
    path: Seq<char>,
    cfg: ConfigView,
    inplace: Seq<char>,
    fp_down: bool,
)
    requires
        can_offload(w, path, inplace),
        key_is_free_for(
            w,
            cfg.bucket,
            record_of(w, path, cfg).s3_key,
            w.files[path]->bytes,
        ),
    ensures
        ({
            let there = play(
                OffloadView::fresh(path, cfg, inplace, fp_down),
                StepView::Ask(ActionView::StatFile { path }),
                w,
                1130,
            );
            let back = play(
                RestoreView::fresh(path, cfg),
                StepView::Ask(ActionView::LoadRecord { path }),
                there.2,
                20,
            );
            &&& there.1 matches StepView::End(o) && o is Ok
            &&& back.1 matches StepView::End(o) && o is Ok
            &&& back.2.files == w.files.insert(
                path,
                Node::File {
                    bytes: w.files[path]->bytes,
                    mode: w.files[path]->mode,
                    mtime: w.files[path]->mtime,
                    atime: w.clock,
                },
            )
            &&& there.2.records == w.records.insert(path, record_of(w, path, cfg))
            &&& back.2.records == there.2.records.insert(
                path,
                RecordView { restored: true, ..record_of(w, path, cfg) },
            )
            &&& back.2.objects == there.2.objects
            &&& back.2.objects.dom().contains((cfg.bucket, record_of(w, path, cfg).s3_key))
            &&& back.2.objects[(cfg.bucket, record_of(w, path, cfg).s3_key)]
                == w.files[path]->bytes
            &&& back.1->End_0->Ok_0.path == path
            &&& w.files[path]->bytes.len() <= isize::MAX ==> back.1->End_0->Ok_0.bytes_restored
                == w.files[path]->bytes.len()
        }),
{
    lemma_offload(w, path, cfg, inplace, fp_down);
    let there = play(
        OffloadView::fresh(path, cfg, inplace, fp_down),
        StepView::Ask(ActionView::StatFile { path }),
        w,
        1130,
    );
    lemma_restore(there.2, path, cfg);
    let node = Node::File {
        bytes: w.files[path]->bytes,
        mode: w.files[path]->mode,
        mtime: w.files[path]->mtime,
        atime: w.clock,
    };
    assert(there.2.files.insert(path, node) =~= w.files.insert(path, node)) by {
        assert(there.2.files.remove(path) == w.files.remove(path));
        assert forall|k: Seq<char>| k != path implies there.2.files.dom().contains(k)
            == w.files.dom().contains(k) && there.2.files[k] == w.files[k] by {
            assert(there.2.files.remove(path).dom().contains(k) == w.files.remove(
                path,
            ).dom().contains(k));
            assert(there.2.files.remove(path)[k] == w.files.remove(path)[k]);
        }
    }
}

/// Equal content is stored once: where two files have the same bytes, offloading the
/// second one uploads nothing, finds its content there already, and leaves every object as
/// it was.
pub proof fn law_equal_files_are_stored_once(
    w: World,
    first: Seq<char>,
    second: Seq<char>,
    cfg: ConfigView,
    inplace: Seq<char>,
    fp_down: bool,
)
    requires
        first != second,
        can_offload(w, first, inplace),
        can_offload(w, second, inplace),
        w.files[first]->bytes == w.files[second]->bytes,
        key_is_free_for(
            w,
            cfg.bucket,
            record_of(w, first, cfg).s3_key,
            w.files[first]->bytes,
        ),
    ensures
        ({
            let one = play(
                OffloadView::fresh(first, cfg, inplace, fp_down),
                StepView::Ask(ActionView::StatFile { path: first }),
                w,
                1130,
            );
            let two = play(
                OffloadView::fresh(second, cfg, inplace, fp_down),
                StepView::Ask(ActionView::StatFile { path: second }),
                one.2,
                1130,
            );
            &&& one.1 matches StepView::End(o) && o is Ok
            &&& two.1 matches StepView::End(o) && o is Ok && o->Ok_0.deduped
            &&& two.2.objects == one.2.objects
        }),
{
    lemma_offload(w, first, cfg, inplace, fp_down);
    let one = play(
        OffloadView::fresh(first, cfg, inplace, fp_down),
        StepView::Ask(ActionView::StatFile { path: first }),
        w,
        1130,
    ).2;
    assert(one.files.remove(first).dom().contains(second) == w.files.remove(
        first,
    ).dom().contains(second));
    assert(one.files.remove(first)[second] == w.files.remove(first)[second]);
    assert(one.probe(second) == w.probe(second));
    lemma_offload(one, second, cfg, inplace, fp_down);
    assert(secured(one, second, cfg).objects =~= one.objects);
}

// ---- creating and fetching ----------------------------------------------------------

/// The item that is made from a file.
pub open spec fn item_of(
    w: World,
    nonce: u64,
    parent_id: Seq<char>,
    filename: Seq<char>,
    temp_path: Seq<char>,
) -> ItemView {
    let data = w.files[temp_path]->bytes;
    let hash = hash::blake3_hex(data);
    ItemView {
        item_id: folder::id_of(w.clock, nonce),
        parent_id,
        filename,
        is_folder: false,
        size: data.len() as i64,
        content_type: folder::type_of_file(filename),
        hash: Some(hash),
        s3_key: Some(folder::item_key(hash)),
        version: 1,
        modified_at: w.clock,
        last_access: w.clock,
        dataless: false,
    }
}

/// What a run of a creation comes to.
#[verifier::spinoff_prover]
#[verifier::rlimit(40)]
proof fn lemma_create(
    w: World,
    cfg: ConfigView,
    nonce: u64,
    parent_id: Seq<char>,
    filename: Seq<char>,
    temp_path: Seq<char>,
)
    requires
        temp_path.len() > 0,
        w.has_file(temp_path),
        key_is_free_for(
            w,
            cfg.bucket,
            folder::item_key(hash::blake3_hex(w.files[temp_path]->bytes)),
            w.files[temp_path]->bytes,
        ),
    ensures
        ({
            let data = w.files[temp_path]->bytes;
            let item = item_of(w, nonce, parent_id, filename, temp_path);
            let key = folder::item_key(hash::blake3_hex(data));
            let r = play(
                CreateView::fresh(cfg, nonce, parent_id, filename, false, temp_path),
                StepView::Ask(ActionView::OpenStore),
                w,
                10,
            );
            &&& r.1 == StepView::<ItemView>::End(Ok(item))
            &&& r.2 == (World {
                objects: w.objects.insert((cfg.bucket, key), data),
                items: w.items.insert(item.item_id, item),
                ..w
            })
        }),
{
    let data = w.files[temp_path]->bytes;
    let h = hash::blake3_hex(data);
    let key = folder::item_key(h);
    let at = cfg.remote();
    let id = folder::id_of(w.clock, nonce);
    let there = w.objects.dom().contains((cfg.bucket, key));
    let s0 = CreateView::fresh(cfg, nonce, parent_id, filename, false, temp_path);
    lemma_play(s0, ActionView::OpenStore, w, 10);
    let s1 = CreateView { phase: CreatePhase::Id, ..s0 };
    lemma_play(s1, ActionView::Clock, w, 9);
    let s2 = CreateView { phase: CreatePhase::Read, item_id: id, ..s1 };
    lemma_play(s2, ActionView::ReadFile { path: temp_path }, w, 8);
    let s3 = CreateView {
        phase: CreatePhase::Head,
        data,
        size: data.len() as i64,
        hash: h,
        ..s2
    };
    lemma_play(s3, ActionView::HeadObject { at, key }, w, 7);
    let s4 = CreateView { phase: CreatePhase::Modified, data: Seq::empty(), ..s3 };
    let objects = w.objects.insert((cfg.bucket, key), data);
    let w4 = World { objects, ..w };
    let left: nat = if there {
        6
    } else {
        5
    };
    if there {
        assert(objects =~= w.objects);
    } else {
        let up = CreateView { phase: CreatePhase::Upload, data: Seq::empty(), ..s3 };
        lemma_play(up, ActionView::StoreObject { at, key, data }, w, 6);
    }
    lemma_play(s4, ActionView::Clock, w4, left);
    let s5 = CreateView { phase: CreatePhase::Accessed, modified_at: w.clock, ..s4 };
    lemma_play(s5, ActionView::Clock, w4, (left - 1) as nat);
    let s6 = CreateView { phase: CreatePhase::Save, last_access: w.clock, ..s5 };
    let item = s6.item();
    assert(s5.respond(ReplyView::Time(w.clock)) == (
        s6,
        StepView::<ItemView>::Ask(ActionView::SaveItem { item }),
    ));
    lemma_play(s6, ActionView::SaveItem { item }, w4, (left - 2) as nat);
    let s7 = CreateView { phase: CreatePhase::Over, ..s6 };
    let w6 = w4.react(ActionView::SaveItem { item }).0;
    lemma_play_end(s7, Ok(item), w6, (left - 3) as nat);
}

/// What a run of a fetch comes to.
#[verifier::spinoff_prover]
#[verifier::rlimit(40)]
proof fn lemma_fetch(
    w: World,
    cfg: ConfigView,
    id: Seq<char>,
    out_path: Seq<char>,
    key: Seq<char>,
    data: Seq<u8>,
)
    requires
        w.items.dom().contains(id),
        w.items[id].s3_key == Some(key),
        w.items[id].hash == Some(hash::blake3_hex(data)),
        w.objects.dom().contains((cfg.bucket, key)),
        w.objects[(cfg.bucket, key)] == data,
    ensures
        ({
            let r = play(
                FetchView::fresh(cfg, id, out_path),
                StepView::Ask(ActionView::LoadItem { item_id: id }),
                w,
                10,
            );
            &&& r.1 matches StepView::End(o) && o is Ok
            &&& r.2.has_file(out_path)
            &&& r.2.files[out_path]->bytes == data
            &&& r.2.items == w.items.insert(
                id,
                ItemView { dataless: false, last_access: w.clock, ..w.items[id] },
            )
        }),
{
    let item = w.items[id];
    let at = cfg.remote();
    let f0 = FetchView::fresh(cfg, id, out_path);
    lemma_play(f0, ActionView::LoadItem { item_id: id }, w, 10);
    let f1 = FetchView { phase: FetchPhase::Object, item: Some(item), ..f0 };
    lemma_play(f1, ActionView::GetObject { at, key }, w, 9);
    assert(f1.vouches_for(data));
    let f2 = FetchView { phase: FetchPhase::Write, ..f1 };
    let write = ActionView::WriteFile { path: out_path, data };
    lemma_play(f2, write, w, 8);
    let w7 = w.react(write).0;
    let f3 = FetchView { phase: FetchPhase::Dataless, ..f1 };
    let mark = ActionView::SetDataless { item_id: id, dataless: false };
    lemma_play(f3, mark, w7, 7);
    let w8 = w7.react(mark).0;
    let f4 = FetchView { phase: FetchPhase::Time, ..f1 };
    lemma_play(f4, ActionView::Clock, w8, 6);
    let f5 = FetchView { phase: FetchPhase::Touch, ..f1 };
    let touch = ActionView::TouchAccess { item_id: id, ts: w.clock };
    lemma_play(f5, touch, w8, 5);
    let w9 = w8.react(touch).0;
    let f6 = FetchView { phase: FetchPhase::Over, ..f1 };
    lemma_play_end(f6, Ok(item), w9, 4);
    assert(w9.items =~= w.items.insert(
        id,
        ItemView { dataless: false, last_access: w.clock, ..item },
    ));
}

/// What is fetched is what was created: an item that is made from a file and then fetched
/// has the bytes of that file, is no longer dataless and counts as just accessed. Only
/// where the bucket holds other content with the same hash, the hash cannot tell.
pub proof fn law_fetching_gives_back_what_was_created(
    w: World,
    cfg: ConfigView,
    nonce: u64,
    parent_id: Seq<char>,
    filename: Seq<char>,
    temp_path: Seq<char>,
    out_path: Seq<char>,
)
    requires
        temp_path.len() > 0,
        w.has_file(temp_path),
        key_is_free_for(
            w,
            cfg.bucket,
            folder::item_key(hash::blake3_hex(w.files[temp_path]->bytes)),
            w.files[temp_path]->bytes,
        ),
    ensures
        ({
            let id = folder::id_of(w.clock, nonce);
            let there = play(
                CreateView::fresh(cfg, nonce, parent_id, filename, false, temp_path),
                StepView::Ask(ActionView::OpenStore),
                w,
                10,
            );
            let back = play(
                FetchView::fresh(cfg, id, out_path),
                StepView::Ask(ActionView::LoadItem { item_id: id }),
                there.2,
                10,
            );
            &&& there.1 matches StepView::End(o) && o is Ok
            &&& back.1 matches StepView::End(o) && o is Ok
            &&& back.2.has_file(out_path)
            &&& back.2.files[out_path]->bytes == w.files[temp_path]->bytes
            &&& back.2.items.dom().contains(id)
            &&& back.2.items[id].filename == filename
            &&& back.2.items[id].parent_id == parent_id
            &&& !back.2.items[id].dataless
            &&& back.2.items[id].last_access == w.clock
        }),
{
    let data = w.files[temp_path]->bytes;
    let key = folder::item_key(hash::blake3_hex(data));
    lemma_create(w, cfg, nonce, parent_id, filename, temp_path);
    let there = play(
        CreateView::fresh(cfg, nonce, parent_id, filename, false, temp_path),
        StepView::Ask(ActionView::OpenStore),
        w,
        10,
    );
    lemma_fetch(there.2, cfg, folder::id_of(w.clock, nonce), out_path, key, data);
}

/// Equal content is stored once: where an item is made from the bytes of another one,
/// every object is left as it was.
pub proof fn law_equal_items_are_stored_once(
    w: World,
    cfg: ConfigView,
    nonces: (u64, u64),
    parents: (Seq<char>, Seq<char>),
    names: (Seq<char>, Seq<char>),
    temps: (Seq<char>, Seq<char>),
)
    requires
        temps.0.len() > 0,
        temps.1.len() > 0,
        w.has_file(temps.0),
        w.has_file(temps.1),
        w.files[temps.0]->bytes == w.files[temps.1]->bytes,
        key_is_free_for(
            w,
            cfg.bucket,
            folder::item_key(hash::blake3_hex(w.files[temps.0]->bytes)),
            w.files[temps.0]->bytes,
        ),
    ensures
        ({
            let one = play(
                CreateView::fresh(cfg, nonces.0, parents.0, names.0, false, temps.0),
                StepView::Ask(ActionView::OpenStore),
                w,
                10,
            );
            let two = play(
                CreateView::fresh(cfg, nonces.1, parents.1, names.1, false, temps.1),
                StepView::Ask(ActionView::OpenStore),
                one.2,
                10,
            );
            &&& one.1 matches StepView::End(o) && o is Ok
            &&& two.1 matches StepView::End(o) && o is Ok
            &&& two.2.objects == one.2.objects
        }),
{
    lemma_create(w, cfg, nonces.0, parents.0, names.0, temps.0);
    let one = play(
        CreateView::fresh(cfg, nonces.0, parents.0, names.0, false, temps.0),
        StepView::Ask(ActionView::OpenStore),
        w,
        10,
    ).2;
    lemma_create(one, cfg, nonces.1, parents.1, names.1, temps.1);
    let data = w.files[temps.0]->bytes;
    let key = folder::item_key(hash::blake3_hex(data));
    assert(one.objects.insert((cfg.bucket, key), data) =~= one.objects);
}

/// What a run of a change comes to.
#[verifier::spinoff_prover]
#[verifier::rlimit(40)]
proof fn lemma_update(w: World, cfg: ConfigView, id: Seq<char>, temp_path: Seq<char>)
    requires
        w.items.dom().contains(id),
        w.items[id].item_id == id,
        w.has_file(temp_path),
        key_is_free_for(
            w,
            cfg.bucket,
            folder::item_key(hash::blake3_hex(w.files[temp_path]->bytes)),
            w.files[temp_path]->bytes,
        ),
    ensures
        ({
            let data = w.files[temp_path]->bytes;
            let h = hash::blake3_hex(data);
            let item = folder::changed(w.items[id], data.len() as i64, h, w.clock, w.clock);
            let r = play(
                UpdateView::fresh(cfg, id, temp_path),
                StepView::Ask(ActionView::LoadItem { item_id: id }),
                w,
                10,
            );
            &&& r.1 == StepView::<ItemView>::End(Ok(item))
            &&& r.2 == (World {
                objects: w.objects.insert((cfg.bucket, folder::item_key(h)), data),
                items: w.items.insert(id, item),
                ..w
            })
        }),
{
    let data = w.files[temp_path]->bytes;
    let h = hash::blake3_hex(data);
    let key = folder::item_key(h);
    let at = cfg.remote();
    let there = w.objects.dom().contains((cfg.bucket, key));
    let s0 = UpdateView::fresh(cfg, id, temp_path);
    lemma_play(s0, ActionView::LoadItem { item_id: id }, w, 10);
    let s1 = UpdateView { phase: UpdatePhase::Read, item: Some(w.items[id]), ..s0 };
    lemma_play(s1, ActionView::ReadFile { path: temp_path }, w, 9);
    let s2 = UpdateView {
        phase: UpdatePhase::Head,
        data,
        size: data.len() as i64,
        hash: h,
        ..s1
    };
    lemma_play(s2, ActionView::HeadObject { at, key }, w, 8);
    let s3 = UpdateView { phase: UpdatePhase::Modified, data: Seq::empty(), ..s2 };
    let objects = w.objects.insert((cfg.bucket, key), data);
    let w3 = World { objects, ..w };
    let left: nat = if there {
        7
    } else {
        6
    };
    if there {
        assert(objects =~= w.objects);
    } else {
        let up = UpdateView { phase: UpdatePhase::Upload, data: Seq::empty(), ..s2 };
        lemma_play(up, ActionView::StoreObject { at, key, data }, w, 7);
    }
    lemma_play(s3, ActionView::Clock, w3, left);
    let s4 = UpdateView { phase: UpdatePhase::Accessed, modified_at: w.clock, ..s3 };
    lemma_play(s4, ActionView::Clock, w3, (left - 1) as nat);
    let item = folder::changed(w.items[id], data.len() as i64, h, w.clock, w.clock);
    let s5 = UpdateView { phase: UpdatePhase::Save, item: Some(item), ..s4 };
    lemma_play(s5, ActionView::SaveItem { item }, w3, (left - 2) as nat);
    let s6 = UpdateView { phase: UpdatePhase::Over, ..s5 };
    let w5 = w3.react(ActionView::SaveItem { item }).0;
    lemma_play_end(s6, Ok(item), w5, (left - 3) as nat);
}

/// What is fetched is what was put in last: an item whose content is replaced by that of a
/// file and that is then fetched has the bytes of that file. Only where the bucket holds
/// other content with the same hash, the hash cannot tell.
pub proof fn law_fetching_gives_back_what_was_changed(
    w: World,
    cfg: ConfigView,
    id: Seq<char>,
    temp_path: Seq<char>,
    out_path: Seq<char>,
)
    requires
        w.items.dom().contains(id),
        w.items[id].item_id == id,
        w.items[id].version < i64::MAX,
        w.has_file(temp_path),
        key_is_free_for(
            w,
            cfg.bucket,
            folder::item_key(hash::blake3_hex(w.files[temp_path]->bytes)),
            w.files[temp_path]->bytes,
        ),
    ensures
        ({
            let there = play(
                UpdateView::fresh(cfg, id, temp_path),
                StepView::Ask(ActionView::LoadItem { item_id: id }),
                w,
                10,
            );
            let back = play(
                FetchView::fresh(cfg, id, out_path),
                StepView::Ask(ActionView::LoadItem { item_id: id }),
                there.2,
                10,
            );
            &&& there.1 matches StepView::End(o) && o is Ok
            &&& back.1 matches StepView::End(o) && o is Ok
            &&& back.2.has_file(out_path)
            &&& back.2.files[out_path]->bytes == w.files[temp_path]->bytes
            &&& back.2.items[id].version == w.items[id].version + 1
        }),
{
    let data = w.files[temp_path]->bytes;
    let key = folder::item_key(hash::blake3_hex(data));
    lemma_update(w, cfg, id, temp_path);
    let there = play(
        UpdateView::fresh(cfg, id, temp_path),
        StepView::Ask(ActionView::LoadItem { item_id: id }),
        w,
        10,
    );
    lemma_fetch(there.2, cfg, id, out_path, key, data);
}

// ---- sharing and revoking -----------------------------------------------------------

/// The token of the next share link.
pub open spec fn next_token(w: World) -> Seq<char> {
    crate::links::hex_of(w.random)
}

/// The key of the object behind a link to a file.
pub open spec fn link_key(w: World, path: Seq<char>) -> Seq<char> {
    crate::links::key_of_share(next_token(w), paths::last_name(path))
}

/// The link to a file, as it is recorded.
pub open spec fn link_row(w: World, path: Seq<char>, cfg: ConfigView, size: i64) -> ShareRowView {
    ShareRowView {
        token: next_token(w),
        source: path,
        s3_key: link_key(w, path),
        url: crate::links::url_of_share(
            cfg.bucket,
            cfg.region,
            next_token(w),
            paths::last_name(path),
        ),
        size,
        is_folder: false,
        created_at: w.clock,
    }
}

/// A share that has looked at what it is to share.
spec fn share_probed(w: World, path: Seq<char>, cfg: ConfigView, inplace: Seq<char>) -> ShareView {
    ShareView {
        phase: SharePhase::Probe,
        token: next_token(w),
        ..ShareView::fresh(path, cfg, inplace)
    }
}

proof fn lemma_share_begins(w: World, path: Seq<char>, cfg: ConfigView, inplace: Seq<char>)
    requires
        w.files.dom().contains(path),
    ensures
        play(
            ShareView::fresh(path, cfg, inplace),
            StepView::Ask(ActionView::StatNode { path }),
            w,
            12,
        ) == play(
            share_probed(w, path, cfg, inplace),
            StepView::Ask(ActionView::Probe { path }),
            w,
            9,
        ),
{
    let s0 = ShareView::fresh(path, cfg, inplace);
    lemma_play(s0, ActionView::StatNode { path }, w, 12);
    let s1 = ShareView { phase: SharePhase::Token, ..s0 };
    lemma_play(s1, ActionView::RandomBytes { count: 16 }, w, 11);
    let s2 = ShareView { phase: SharePhase::Index, token: next_token(w), ..s1 };
    lemma_play(s2, ActionView::OpenIndex, w, 10);
    assert(share_probed(w, path, cfg, inplace) == ShareView { phase: SharePhase::Probe, ..s2 });
}

/// The outcome of a share that has published some content.
pub open spec fn link_works(
    r: (ShareView, StepView<crate::share::ShareResultView>, World),
    w: World,
    path: Seq<char>,
    cfg: ConfigView,
    size: i64,
    content: Seq<u8>,
) -> bool {
    let row = link_row(w, path, cfg, size);
    &&& r.1 == StepView::<crate::share::ShareResultView>::End(
        Ok(
            crate::share::ShareResultView {
                url: row.url,
                token: row.token,
                path,
                size,
                is_folder: false,
                file_count: 1,
            },
        ),
    )
    &&& r.2 == (World {
        objects: w.objects.insert((cfg.bucket, row.s3_key), content),
        shares: w.shares.insert(row.token, row),
        ..w
    })
}

proof fn lemma_share_ends(s: ShareView, w: World, n: nat)
    requires
        s.phase is Time,
        n >= 3,
    ensures
        ({
            let row = s.row(w.clock);
            let r = play(s, StepView::Ask(ActionView::Clock), w, n);
            &&& r.1 == StepView::<crate::share::ShareResultView>::End(Ok(s.result()))
            &&& r.2 == (World { shares: w.shares.insert(row.token, row), ..w })
        }),
{
    lemma_play(s, ActionView::Clock, w, n);
    let t = ShareView { phase: SharePhase::Save, ..s };
    let save = ActionView::SaveShare { row: s.row(w.clock) };
    lemma_play(t, save, w, (n - 1) as nat);
    let e = ShareView { phase: SharePhase::Over, ..s };
    assert(t.result() == s.result());
    lemma_play_end(e, Ok(s.result()), w.react(save).0, (n - 2) as nat);
}

/// A link to a file serves the bytes of the file as it is when it is shared; no file and
/// no other object is touched.
pub proof fn law_a_link_serves_the_file(
    w: World,
    path: Seq<char>,
    cfg: ConfigView,
    inplace: Seq<char>,
)
    requires
        can_offload(w, path, inplace),
        !w.objects.dom().contains((cfg.bucket, link_key(w, path))),
    ensures
        link_works(
            play(
                ShareView::fresh(path, cfg, inplace),
                StepView::Ask(ActionView::StatNode { path }),
                w,
                12,
            ),
            w,
            path,
            cfg,
            w.files[path]->bytes.len() as i64,
            w.files[path]->bytes,
        ),
{
    let data = w.files[path]->bytes;
    let size = data.len() as i64;
    let at = cfg.remote();
    let key = link_key(w, path);
    lemma_share_begins(w, path, cfg, inplace);
    let s3 = share_probed(w, path, cfg, inplace);
    lemma_play(s3, ActionView::Probe { path }, w, 9);
    let s4 = ShareView { phase: SharePhase::Read, ..s3 };
    lemma_play(s4, ActionView::ReadFile { path }, w, 8);
    let s5 = ShareView {
        phase: SharePhase::Public,
        from: None,
        name: paths::last_name(path),
        size,
        file_count: 1,
        data,
        ..s4
    };
    assert(s4.respond(ReplyView::File(Ok(data))) == (
        s5,
        StepView::<crate::share::ShareResultView>::Ask(ActionView::OpenShares { at }),
    ));
    lemma_play(s5, ActionView::OpenShares { at }, w, 7);
    assert(s5.key() == key);
    let s6 = ShareView { phase: SharePhase::Head, ..s5 };
    lemma_play(s6, ActionView::HeadObject { at, key }, w, 6);
    let s7 = ShareView { phase: SharePhase::Store, data: Seq::empty(), ..s5 };
    let store = ActionView::StoreObject { at, key, data };
    lemma_play(s7, store, w, 5);
    let w8 = w.react(store).0;
    let s8 = ShareView { phase: SharePhase::Time, data: Seq::empty(), ..s5 };
    lemma_share_ends(s8, w8, 4);
}

/// The world after some files were written, one after the other.
pub open spec fn edited(w: World, edits: Seq<(Seq<char>, Seq<u8>)>) -> World
    decreases edits.len(),
{
    if edits.len() == 0 {
        w
    } else {
        let e = edits.last();
        edited(w, edits.drop_last()).react(ActionView::WriteFile { path: e.0, data: e.1 }).0
    }
}

proof fn lemma_edited(w: World, edits: Seq<(Seq<char>, Seq<u8>)>)
    ensures
        edited(w, edits) == (World { files: edited(w, edits).files, ..w }),
    decreases edits.len(),
{
    if edits.len() > 0 {
        lemma_edited(w, edits.drop_last());
    }
}

/// A link is a snapshot: whatever is written to the file, or to any other, after it was
/// shared, the link serves the bytes that the file had when it was shared.
pub proof fn law_a_link_is_a_snapshot(
    w: World,
    path: Seq<char>,
    cfg: ConfigView,
    inplace: Seq<char>,
    edits: Seq<(Seq<char>, Seq<u8>)>,
)
    requires
        can_offload(w, path, inplace),
        !w.objects.dom().contains((cfg.bucket, link_key(w, path))),
    ensures
        ({
            let shared = play(
                ShareView::fresh(path, cfg, inplace),
                StepView::Ask(ActionView::StatNode { path }),
                w,
                12,
            ).2;
            let later = edited(shared, edits);
            &&& later.objects.dom().contains((cfg.bucket, link_key(w, path)))
            &&& later.objects[(cfg.bucket, link_key(w, path))] == w.files[path]->bytes
            &&& later.shares == shared.shares
        }),
{
    law_a_link_serves_the_file(w, path, cfg, inplace);
    let shared = play(
        ShareView::fresh(path, cfg, inplace),
        StepView::Ask(ActionView::StatNode { path }),
        w,
        12,
    ).2;
    lemma_edited(shared, edits);
}

/// A link to an offloaded file serves its content, although the file itself is not
/// there: the content is copied within the bucket.
pub proof fn law_a_link_serves_an_offloaded_file(
    w: World,
    path: Seq<char>,
    cfg: ConfigView,
    inplace: Seq<char>,
)
    requires
        w.probe(path).placeholder(inplace) == Ok::<bool, Fault>(true),
        w.records.dom().contains(path),
        w.objects.dom().contains((cfg.bucket, w.records[path].s3_key)),
    ensures
        link_works(
            play(
                ShareView::fresh(path, cfg, inplace),
                StepView::Ask(ActionView::StatNode { path }),
                w,
                12,
            ),
            w,
            path,
            cfg,
            w.records[path].size,
            w.objects[(cfg.bucket, w.records[path].s3_key)],
        ),
{
    let rec = w.records[path];
    let at = cfg.remote();
    let key = link_key(w, path);
    lemma_share_begins(w, path, cfg, inplace);
    let s3 = share_probed(w, path, cfg, inplace);
    lemma_play(s3, ActionView::Probe { path }, w, 9);
    let s4 = ShareView { phase: SharePhase::Record, ..s3 };
    lemma_play(s4, ActionView::LoadRecord { path }, w, 8);
    let s5 = ShareView {
        phase: SharePhase::Public,
        from: Some(rec.s3_key),
        name: paths::last_name(path),
        size: rec.size,
        file_count: 1,
        ..s4
    };
    lemma_play(s5, ActionView::OpenShares { at }, w, 7);
    assert(s5.key() == key);
    let s6 = ShareView { phase: SharePhase::Copy, ..s5 };
    let copy = ActionView::CopyObject { at, from: rec.s3_key, key };
    lemma_play(s6, copy, w, 6);
    let w7 = w.react(copy).0;
    let s7 = ShareView { phase: SharePhase::Time, ..s5 };
    lemma_share_ends(s7, w7, 5);
}

/// The link to a folder, as it is recorded: it leads to an archive.
pub open spec fn folder_row(w: World, path: Seq<char>, cfg: ConfigView, size: i64) -> ShareRowView {
    let name = paths::last_name(path) + ".zip"@;
    ShareRowView {
        token: next_token(w),
        source: path,
        s3_key: crate::links::key_of_share(next_token(w), name),
        url: crate::links::url_of_share(cfg.bucket, cfg.region, next_token(w), name),
        size,
        is_folder: true,
        created_at: w.clock,
    }
}

/// A link to a folder serves an archive of what is in it; no file and no other object is
/// touched.
pub proof fn law_a_link_serves_the_archive_of_a_folder(
    w: World,
    path: Seq<char>,
    cfg: ConfigView,
    inplace: Seq<char>,
)
    requires
        w.has_dir(path),
        archive::names_fit(w.trees[path], w.area),
        archive::packed(w.trees[path], w.area) is Ok,
        !w.objects.dom().contains((cfg.bucket, folder_row(w, path, cfg, 0).s3_key)),
    ensures
        ({
            let entries = archive::packed(w.trees[path], w.area)->Ok_0;
            let data = archive::archive_bytes(entries);
            let row = folder_row(w, path, cfg, data.len() as i64);
            let r = play(
                ShareView::fresh(path, cfg, inplace),
                StepView::Ask(ActionView::StatNode { path }),
                w,
                12,
            );
            &&& r.1 == StepView::<crate::share::ShareResultView>::End(
                Ok(
                    crate::share::ShareResultView {
                        url: row.url,
                        token: row.token,
                        path,
                        size: row.size,
                        is_folder: true,
                        file_count: archive::files_in(entries) as usize,
                    },
                ),
            )
            &&& r.2 == (World {
                objects: w.objects.insert((cfg.bucket, row.s3_key), data),
                shares: w.shares.insert(row.token, row),
                ..w
            })
        }),
{
    let entries = archive::packed(w.trees[path], w.area)->Ok_0;
    let data = archive::archive_bytes(entries);
    let count = archive::files_in(entries) as usize;
    let size = data.len() as i64;
    let row = folder_row(w, path, cfg, size);
    let at = cfg.remote();
    let key = row.s3_key;
    let s0 = ShareView::fresh(path, cfg, inplace);
    lemma_play(s0, ActionView::StatNode { path }, w, 12);
    let s1 = ShareView { phase: SharePhase::Token, is_dir: true, ..s0 };
    lemma_play(s1, ActionView::RandomBytes { count: 16 }, w, 11);
    let s2 = ShareView { phase: SharePhase::Index, token: next_token(w), ..s1 };
    lemma_play(s2, ActionView::OpenIndex, w, 10);
    let s3 = ShareView { phase: SharePhase::Zip, ..s2 };
    lemma_play(s3, ActionView::ZipTree { path }, w, 9);
    let s4 = ShareView {
        phase: SharePhase::Public,
        from: None,
        name: paths::last_name(path) + ".zip"@,
        size,
        file_count: count,
        data,
        ..s3
    };
    assert(s3.respond(ReplyView::Zipped(Ok((data, count)))) == (
        s4,
        StepView::<crate::share::ShareResultView>::Ask(ActionView::OpenShares { at }),
    ));
    lemma_play(s4, ActionView::OpenShares { at }, w, 8);
    assert(s4.key() == key);
    let s5 = ShareView { phase: SharePhase::Head, ..s4 };
    lemma_play(s5, ActionView::HeadObject { at, key }, w, 7);
    let s6 = ShareView { phase: SharePhase::Store, data: Seq::empty(), ..s4 };
    let store = ActionView::StoreObject { at, key, data };
    lemma_play(s6, store, w, 6);
    let w7 = w.react(store).0;
    let s7 = ShareView { phase: SharePhase::Time, data: Seq::empty(), ..s4 };
    lemma_share_ends(s7, w7, 5);
}

/// A link that is revoked serves nothing and is not listed any more; no other link or
/// object is touched.
pub proof fn law_revoking_removes_a_link(w: World, token: Seq<char>, cfg: ConfigView)
    requires
        w.shares.dom().contains(token),
    ensures
        ({
            let r = play(
                UnshareView::fresh(token, cfg),
                StepView::Ask(ActionView::LoadShare { token }),
                w,
                5,
            );
            &&& r.1 == StepView::<ShareRowView>::End(Ok(w.shares[token]))
            &&& r.2 == (World {
                objects: w.objects.remove((cfg.bucket, w.shares[token].s3_key)),
                shares: w.shares.remove(token),
                ..w
            })
        }),
{
    let row = w.shares[token];
    let at = cfg.remote();
    let s0 = UnshareView::fresh(token, cfg);
    lemma_play(s0, ActionView::LoadShare { token }, w, 5);
    let s1 = UnshareView { phase: UnsharePhase::Delete, row: Some(row), ..s0 };
    let delete = ActionView::DeleteObject { at, key: row.s3_key };
    lemma_play(s1, delete, w, 4);
    let w1 = w.react(delete).0;
    let s2 = UnshareView { phase: UnsharePhase::Forget, ..s1 };
    let forget = ActionView::ForgetShare { token };
    lemma_play(s2, forget, w1, 3);
    let s3 = UnshareView { phase: UnsharePhase::Over, ..s1 };
    lemma_play_end(s3, Ok(row), w1.react(forget).0, 2);
}

} // verus!

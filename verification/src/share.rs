//! Sharing: a file or folder is published under a permanent link, and links are revoked.
//!
//! A link is a snapshot. Content that is in the bucket already is copied there, without a
//! download.

use vstd::prelude::*;

use crate::config::{Config, ConfigView};
use crate::effects;
use crate::effects::{Action, ActionView, Flow, Reply, ReplyView, Step, StepView};
use crate::error::{Fault, StowError};
use crate::index::{ShareRow, ShareRowView};
use crate::links;
use crate::paths;
use crate::placeholder;
use crate::provider;
use crate::provider::Item;
use crate::text;

verus! {

// ---- items of the Stow folder by their place --------------------------------------

/// Whether item `i` lies in a folder under a name.
pub open spec fn is_child(items: Seq<Item>, parent: Seq<char>, name: Seq<char>, i: int) -> bool {
    0 <= i < items.len() && items[i].parent_id@ == parent && items[i].filename@ == name
}

/// Whether item `i` is the first that lies in a folder under a name.
pub open spec fn is_first_child(
    items: Seq<Item>,
    parent: Seq<char>,
    name: Seq<char>,
    i: int,
) -> bool {
    is_child(items, parent, name, i) && forall|j: int|
        0 <= j < i ==> !is_child(items, parent, name, j)
}

/// The item that lies in a folder under a name.
pub open spec fn child(items: Seq<Item>, parent: Seq<char>, name: Seq<char>) -> Option<Item> {
    if exists|i: int| is_child(items, parent, name, i) {
        Some(items[choose|i: int| is_first_child(items, parent, name, i)])
    } else {
        None
    }
}

/// The item at the end of a way that begins in a folder; `None` where the way breaks off
/// or is empty.
pub open spec fn item_below(items: Seq<Item>, parent: Seq<char>, way: Seq<Seq<char>>) -> Option<
    Item,
>
    decreases way.len(),
{
    if way.len() == 0 {
        None
    } else {
        match child(items, parent, way[0]) {
            None => None,
            Some(k) => if way.len() == 1 {
                Some(k)
            } else {
                item_below(items, k.item_id@, way.drop_first())
            },
        }
    }
}

fn find_child(items: &Vec<Item>, parent: &str, name: &str) -> (r: Option<Item>)
    ensures
        r == child(items@, parent@, name@),
{
    let mut i: usize = 0;
    while i < items.len()
        invariant
            i <= items.len(),
            forall|j: int| 0 <= j < i ==> !is_child(items@, parent@, name@, j),
        decreases items.len() - i,
    {
        if text::same(items[i].parent_id.as_str(), parent) && text::same(
            items[i].filename.as_str(),
            name,
        ) {
            proof {
                assert(is_first_child(items@, parent@, name@, i as int));
                let c = choose|c: int| is_first_child(items@, parent@, name@, c);
                assert(is_first_child(items@, parent@, name@, c));
                assert(c == i);
            }
            return Some(items[i].clone());
        }
        i += 1;
    }
    None
}

/// The item at a place in the Stow folder, found by walking down from its root.
pub fn fp_item_for(items: &Vec<Item>, comps: &Vec<String>) -> (r: Option<Item>)
    ensures
        r == item_below(items@, provider::ROOT@, text::texts(comps@)),
{
    let ghost way = text::texts(comps@);
    let mut parent = provider::ROOT.to_owned();
    let mut found: Option<Item> = None;
    let mut i: usize = 0;
    assert(way.skip(0) =~= way);
    while i < comps.len()
        invariant
            i <= comps.len(),
            way == text::texts(comps@),
            way.len() == comps@.len(),
            i == 0 ==> found is None,
            i == comps.len() ==> found == item_below(items@, provider::ROOT@, way),
            i < comps.len() ==> item_below(items@, parent@, way.skip(i as int)) == item_below(
                items@,
                provider::ROOT@,
                way,
            ),
        decreases comps.len() - i,
    {
        let ghost rest = way.skip(i as int);
        assert(rest[0] == comps@[i as int]@);
        assert(rest.drop_first() =~= way.skip(i + 1));
        match find_child(items, parent.as_str(), comps[i].as_str()) {
            Some(k) => {
                parent = k.item_id.clone();
                found = Some(k);
            },
            None => {
                return None;
            },
        }
        i += 1;
    }
    found
}

// ---- sharing ------------------------------------------------------------------------

/// A new share link.
pub struct ShareResult {
    pub url: String,
    pub token: String,
    pub path: String,
    pub size: i64,
    pub is_folder: bool,
    pub file_count: usize,
}

/// The content of a `ShareResult`.
pub struct ShareResultView {
    pub url: Seq<char>,
    pub token: Seq<char>,
    pub path: Seq<char>,
    pub size: i64,
    pub is_folder: bool,
    pub file_count: usize,
}

impl View for ShareResult {
    type V = ShareResultView;

    open spec fn view(&self) -> ShareResultView {
        ShareResultView {
            url: self.url@,
            token: self.token@,
            path: self.path@,
            size: self.size,
            is_folder: self.is_folder,
            file_count: self.file_count,
        }
    }
}

/// What a share is waiting for.
#[derive(Clone, Copy, Debug)]
pub enum SharePhase {
    /// Whether the path is a directory.
    Node,
    /// Random bytes for the token.
    Token,
    /// The index.
    Index,
    /// The packed directory.
    Zip,
    /// Whether the path is a placeholder.
    Probe,
    /// The record of an offloaded file.
    Record,
    /// The items of the Stow folder.
    Items,
    /// The bytes of the file.
    Read,
    /// The permission for anyone to read.
    Public,
    /// The copy within the bucket.
    Copy,
    /// Whether there is an object under the key.
    Head,
    /// The upload.
    Store,
    /// The time.
    Time,
    /// The link in the index.
    Save,
    /// Nothing more.
    Over,
}

/// A file or folder while it is shared. What is not known yet is empty or zero.
pub struct Share {
    phase: SharePhase,
    path: String,
    cfg: Config,
    inplace: String,
    is_dir: bool,
    token: String,
    from: Option<String>,
    data: Vec<u8>,
    name: String,
    size: i64,
    file_count: usize,
}

/// The content of a `Share`.
pub struct ShareView {
    pub phase: SharePhase,
    pub path: Seq<char>,
    pub cfg: ConfigView,
    pub inplace: Seq<char>,
    pub is_dir: bool,
    pub token: Seq<char>,
    pub from: Option<Seq<char>>,
    pub data: Seq<u8>,
    pub name: Seq<char>,
    pub size: i64,
    pub file_count: usize,
}

impl View for Share {
    type V = ShareView;

    closed spec fn view(&self) -> ShareView {
        ShareView {
            phase: self.phase,
            path: self.path@,
            cfg: self.cfg@,
            inplace: self.inplace@,
            is_dir: self.is_dir,
            token: self.token@,
            from: text::text_opt(self.from),
            data: self.data@,
            name: self.name@,
            size: self.size,
            file_count: self.file_count,
        }
    }
}

impl ShareView {
    /// A share that has not begun.
    pub open spec fn fresh(path: Seq<char>, cfg: ConfigView, inplace: Seq<char>) -> ShareView {
        ShareView {
            phase: SharePhase::Node,
            path,
            cfg,
            inplace,
            is_dir: false,
            token: Seq::empty(),
            from: None,
            data: Seq::empty(),
            name: Seq::empty(),
            size: 0,
            file_count: 0,
        }
    }

    /// The key of the published object.
    pub open spec fn key(self) -> Seq<char> {
        links::key_of_share(self.token, self.name)
    }

    /// The address of the published object.
    pub open spec fn url(self) -> Seq<char> {
        links::url_of_share(self.cfg.bucket, self.cfg.region, self.token, self.name)
    }

    /// The link as it is recorded.
    pub open spec fn row(self, now: i64) -> ShareRowView {
        ShareRowView {
            token: self.token,
            source: self.path,
            s3_key: self.key(),
            url: self.url(),
            size: self.size,
            is_folder: self.is_dir,
            created_at: now,
        }
    }

    /// The outcome of a share that succeeds.
    pub open spec fn result(self) -> ShareResultView {
        ShareResultView {
            url: self.url(),
            token: self.token,
            path: self.path,
            size: self.size,
            is_folder: self.is_dir,
            file_count: self.file_count,
        }
    }

    /// Asks for an action and waits for what comes of it.
    pub open spec fn ask(self, phase: SharePhase, a: ActionView) -> (
        ShareView,
        StepView<ShareResultView>,
    ) {
        (ShareView { phase, ..self }, StepView::Ask(a))
    }

    /// Ends with an outcome.
    pub open spec fn end(self, r: Result<ShareResultView, Fault>) -> (ShareView, StepView<ShareResultView>) {
        (ShareView { phase: SharePhase::Over, ..self }, StepView::End(r))
    }

    /// Publishes what is in the bucket under `key`.
    pub open spec fn publish_object(self, key: Seq<char>, size: i64) -> (
        ShareView,
        StepView<ShareResultView>,
    ) {
        ShareView {
            from: Some(key),
            name: paths::last_name(self.path),
            size,
            file_count: 1,
            ..self
        }.ask(SharePhase::Public, ActionView::OpenShares { at: self.cfg.remote() })
    }

    /// Publishes bytes under a name.
    pub open spec fn publish_bytes(self, data: Seq<u8>, name: Seq<char>, file_count: usize) -> (
        ShareView,
        StepView<ShareResultView>,
    ) {
        ShareView { from: None, name, size: data.len() as i64, file_count, data, ..self }.ask(
            SharePhase::Public,
            ActionView::OpenShares { at: self.cfg.remote() },
        )
    }

    /// Reads the file.
    pub open spec fn read(self) -> (ShareView, StepView<ShareResultView>) {
        self.ask(SharePhase::Read, ActionView::ReadFile { path: self.path })
    }

    /// What a share does when `reply` comes in.
    pub open spec fn respond(self, reply: ReplyView) -> (ShareView, StepView<ShareResultView>) {
        match (self.phase, reply) {
            (SharePhase::Node, ReplyView::Kind(r)) => match r {
                Err(m) => self.end(Err(Fault::Io(self.path + ": "@ + m))),
                Ok(is_dir) => ShareView { is_dir, ..self }.ask(
                    SharePhase::Token,
                    ActionView::RandomBytes { count: 16 },
                ),
            },
            (SharePhase::Token, ReplyView::Random(r)) => match r {
                Err(m) => self.end(Err(Fault::Io("urandom: "@ + m))),
                Ok(b) => ShareView { token: links::hex_of(b), ..self }.ask(
                    SharePhase::Index,
                    ActionView::OpenIndex,
                ),
            },
            (SharePhase::Index, ReplyView::Done(r)) => match r {
                Err(e) => self.end(Err(e)),
                Ok(_) => if self.is_dir {
                    self.ask(SharePhase::Zip, ActionView::ZipTree { path: self.path })
                } else {
                    self.ask(SharePhase::Probe, ActionView::Probe { path: self.path })
                },
            },
            (SharePhase::Zip, ReplyView::Zipped(r)) => match r {
                Err(e) => self.end(Err(e)),
                Ok(z) => self.publish_bytes(z.0, paths::last_name(self.path) + ".zip"@, z.1),
            },
            (SharePhase::Probe, ReplyView::Probed(found)) => match found.placeholder(
                self.inplace,
            ) {
                Err(e) => self.end(Err(e)),
                Ok(true) => self.ask(
                    SharePhase::Record,
                    ActionView::LoadRecord { path: self.path },
                ),
                Ok(false) => if paths::in_stow_folder(self.path) {
                    self.ask(SharePhase::Items, ActionView::LoadItems)
                } else {
                    self.read()
                },
            },
            (SharePhase::Record, ReplyView::Record(r)) => match r {
                Err(e) => self.end(Err(e)),
                Ok(None) => self.end(
                    Err(Fault::NotFound(self.path + " is offloaded but not tracked"@)),
                ),
                Ok(Some(rec)) => self.publish_object(rec.s3_key, rec.size),
            },
            (SharePhase::Items, ReplyView::Items(r)) => match r {
                Err(e) => self.end(Err(e)),
                Ok(items) => match paths::relative(self.path) {
                    None => self.read(),
                    Some(way) => match item_below(items, provider::ROOT@, way) {
                        Some(it) => if !it.is_folder && it.s3_key is Some {
                            self.publish_object(it.s3_key->0@, it.size)
                        } else {
                            self.read()
                        },
                        None => self.read(),
                    },
                },
            },
            (SharePhase::Read, ReplyView::File(r)) => match r {
                Err(m) => self.end(Err(Fault::Io(m))),
                Ok(data) => self.publish_bytes(data, paths::last_name(self.path), 1),
            },
            (SharePhase::Public, ReplyView::Done(r)) => match r {
                Err(e) => self.end(Err(e)),
                Ok(_) => match self.from {
                    Some(from) => self.ask(
                        SharePhase::Copy,
                        ActionView::CopyObject { at: self.cfg.remote(), from, key: self.key() },
                    ),
                    None => self.ask(
                        SharePhase::Head,
                        ActionView::HeadObject { at: self.cfg.remote(), key: self.key() },
                    ),
                },
            },
            (SharePhase::Head, ReplyView::Found(r)) => match r {
                Err(e) => self.end(Err(e)),
                Ok(true) => ShareView { data: Seq::empty(), ..self }.ask(
                    SharePhase::Time,
                    ActionView::Clock,
                ),
                Ok(false) => ShareView { data: Seq::empty(), ..self }.ask(
                    SharePhase::Store,
                    ActionView::StoreObject {
                        at: self.cfg.remote(),
                        key: self.key(),
                        data: self.data,
                    },
                ),
            },
            (SharePhase::Copy, ReplyView::Done(r)) => match r {
                Err(e) => self.end(Err(e)),
                Ok(_) => self.ask(SharePhase::Time, ActionView::Clock),
            },
            (SharePhase::Store, ReplyView::Done(r)) => match r {
                Err(e) => self.end(Err(e)),
                Ok(_) => self.ask(SharePhase::Time, ActionView::Clock),
            },
            (SharePhase::Time, ReplyView::Time(now)) => self.ask(
                SharePhase::Save,
                ActionView::SaveShare { row: self.row(now) },
            ),
            (SharePhase::Save, ReplyView::Done(r)) => match r {
                Err(e) => self.end(Err(e)),
                Ok(_) => self.end(Ok(self.result())),
            },
            _ => self.end(Err(effects::stray())),
        }
    }
}

impl Flow for ShareView {
    type Out = ShareResultView;

    open spec fn next(self, reply: ReplyView) -> (ShareView, StepView<ShareResultView>) {
        self.respond(reply)
    }
}

/// Begins to publish a file or folder. `inplace` is the name of the mirror area.
pub fn share(path: &str, cfg: &Config, inplace: &str) -> (r: (Share, Step<ShareResult>))
    ensures
        r.0@ == ShareView::fresh(path@, cfg@, inplace@),
        r.1@ == StepView::<ShareResultView>::Ask(ActionView::StatNode { path: path@ }),
        (r.0@, r.1@) == crate::laws::share_start(path@, cfg@, inplace@),
{
    let f = Share {
        phase: SharePhase::Node,
        path: path.to_owned(),
        cfg: cfg.clone(),
        inplace: inplace.to_owned(),
        is_dir: false,
        token: String::new(),
        from: None,
        data: Vec::new(),
        name: String::new(),
        size: 0,
        file_count: 0,
    };
    (f, Step::Ask(Action::StatNode { path: path.to_owned() }))
}

impl Share {
    fn ask(&mut self, phase: SharePhase, a: Action) -> (r: Step<ShareResult>)
        ensures
            (final(self)@, r@) == old(self)@.ask(phase, a@),
    {
        self.phase = phase;
        Step::Ask(a)
    }

    fn fail(&mut self, e: StowError) -> (r: Step<ShareResult>)
        ensures
            (final(self)@, r@) == old(self)@.end(Err(e@)),
    {
        self.phase = SharePhase::Over;
        Step::End(Err(e))
    }

    fn key(&self) -> (r: String)
        ensures
            r@ == self@.key(),
    {
        links::share_key(self.token.as_str(), self.name.as_str())
    }

    fn url(&self) -> (r: String)
        ensures
            r@ == self@.url(),
    {
        links::share_url(
            self.cfg.bucket.as_str(),
            self.cfg.region.as_str(),
            self.token.as_str(),
            self.name.as_str(),
        )
    }

    fn publish_object(&mut self, key: String, size: i64) -> (r: Step<ShareResult>)
        ensures
            (final(self)@, r@) == old(self)@.publish_object(key@, size),
    {
        self.from = Some(key);
        self.name = paths::base_name(self.path.as_str());
        self.size = size;
        self.file_count = 1;
        let a = Action::OpenShares { at: self.cfg.remote() };
        self.ask(SharePhase::Public, a)
    }

    fn publish_bytes(&mut self, data: Vec<u8>, name: String, file_count: usize) -> (r: Step<
        ShareResult,
    >)
        ensures
            (final(self)@, r@) == old(self)@.publish_bytes(data@, name@, file_count),
    {
        self.from = None;
        self.name = name;
        self.size = data.len() as i64;
        self.file_count = file_count;
        self.data = data;
        let a = Action::OpenShares { at: self.cfg.remote() };
        self.ask(SharePhase::Public, a)
    }

    fn read(&mut self) -> (r: Step<ShareResult>)
        ensures
            (final(self)@, r@) == old(self)@.read(),
    {
        let a = Action::ReadFile { path: self.path.clone() };
        self.ask(SharePhase::Read, a)
    }

    fn clock(&mut self, done: Result<(), StowError>) -> (r: Step<ShareResult>)
        ensures
            (final(self)@, r@) == match done {
                Err(e) => old(self)@.end(Err(e@)),
                Ok(_) => old(self)@.ask(SharePhase::Time, ActionView::Clock),
            },
    {
        match done {
            Err(e) => self.fail(e),
            Ok(_) => self.ask(SharePhase::Time, Action::Clock),
        }
    }

    fn upload(&mut self, found: bool) -> (r: Step<ShareResult>)
        requires
            old(self)@.phase is Head,
        ensures
            (final(self)@, r@) == old(self)@.respond(ReplyView::Found(Ok(found))),
    {
        let mut data: Vec<u8> = Vec::new();
        std::mem::swap(&mut data, &mut self.data);
        assert(self@ =~= (ShareView { data: Seq::empty(), ..old(self)@ }));
        if found {
            self.ask(SharePhase::Time, Action::Clock)
        } else {
            let a = Action::StoreObject { at: self.cfg.remote(), key: self.key(), data };
            self.ask(SharePhase::Store, a)
        }
    }

    fn probed(&mut self, found: &placeholder::Probe) -> (r: Step<ShareResult>)
        requires
            old(self)@.phase is Probe,
        ensures
            (final(self)@, r@) == old(self)@.respond(ReplyView::Probed(found@)),
    {
        match placeholder::is_placeholder(found, self.inplace.as_str()) {
            Err(e) => self.fail(e),
            Ok(there) => {
                if there {
                    let a = Action::LoadRecord { path: self.path.clone() };
                    self.ask(SharePhase::Record, a)
                } else if paths::fp_relative(self.path.as_str()).is_some() {
                    self.ask(SharePhase::Items, Action::LoadItems)
                } else {
                    self.read()
                }
            },
        }
    }

    fn listed(&mut self, items: &Vec<Item>) -> (r: Step<ShareResult>)
        requires
            old(self)@.phase is Items,
        ensures
            (final(self)@, r@) == old(self)@.respond(ReplyView::Items(Ok(items@))),
    {
        match paths::fp_relative(self.path.as_str()) {
            None => self.read(),
            Some(way) => {
                match fp_item_for(items, &way) {
                    Some(it) => {
                        if it.is_folder {
                            return self.read();
                        }
                        match it.s3_key {
                            Some(key) => self.publish_object(key, it.size),
                            None => self.read(),
                        }
                    },
                    None => self.read(),
                }
            },
        }
    }

    fn public(&mut self) -> (r: Step<ShareResult>)
        requires
            old(self)@.phase is Public,
        ensures
            (final(self)@, r@) == old(self)@.respond(ReplyView::Done(Ok(()))),
    {
        match self.from.clone() {
            Some(from) => {
                let a = Action::CopyObject { at: self.cfg.remote(), from, key: self.key() };
                self.ask(SharePhase::Copy, a)
            },
            None => {
                let a = Action::HeadObject { at: self.cfg.remote(), key: self.key() };
                self.ask(SharePhase::Head, a)
            },
        }
    }

    /// Takes what came of the action that was asked for, and says what is next.
    #[verifier::spinoff_prover]
    #[verifier::rlimit(40)]
    pub fn step(&mut self, reply: Reply) -> (r: Step<ShareResult>)
        ensures
            (final(self)@, r@) == old(self)@.respond(reply@),
    {
        match (self.phase, reply) {
            (SharePhase::Node, Reply::Kind(kind)) => match kind {
                Err(m) => {
                    let m = text::cat3(self.path.as_str(), ": ", m.as_str());
                    self.fail(StowError::Io(m))
                },
                Ok(is_dir) => {
                    self.is_dir = is_dir;
                    self.ask(SharePhase::Token, Action::RandomBytes { count: 16 })
                },
            },
            (SharePhase::Token, Reply::Random(drawn)) => match drawn {
                Err(m) => self.fail(StowError::Io(text::cat2("urandom: ", m.as_str()))),
                Ok(b) => {
                    self.token = links::token_of(&b);
                    self.ask(SharePhase::Index, Action::OpenIndex)
                },
            },
            (SharePhase::Index, Reply::Done(done)) => match done {
                Err(e) => self.fail(e),
                Ok(_) => if self.is_dir {
                    let a = Action::ZipTree { path: self.path.clone() };
                    self.ask(SharePhase::Zip, a)
                } else {
                    let a = Action::Probe { path: self.path.clone() };
                    self.ask(SharePhase::Probe, a)
                },
            },
            (SharePhase::Zip, Reply::Zipped(zipped)) => match zipped {
                Err(e) => self.fail(e),
                Ok(z) => {
                    let base = paths::base_name(self.path.as_str());
                    let name = text::cat2(base.as_str(), ".zip");
                    self.publish_bytes(z.0, name, z.1)
                },
            },
            (SharePhase::Probe, Reply::Probed(found)) => self.probed(&found),
            (SharePhase::Record, Reply::Record(found)) => match found {
                Err(e) => self.fail(e),
                Ok(None) => {
                    let m = text::cat2(self.path.as_str(), " is offloaded but not tracked");
                    self.fail(StowError::NotFound(m))
                },
                Ok(Some(rec)) => self.publish_object(rec.s3_key, rec.size),
            },
            (SharePhase::Items, Reply::Items(items)) => match items {
                Err(e) => self.fail(e),
                Ok(items) => self.listed(&items),
            },
            (SharePhase::Read, Reply::File(read)) => match read {
                Err(m) => self.fail(StowError::Io(m)),
                Ok(data) => {
                    let name = paths::base_name(self.path.as_str());
                    self.publish_bytes(data, name, 1)
                },
            },
            (SharePhase::Public, Reply::Done(done)) => match done {
                Err(e) => self.fail(e),
                Ok(_) => self.public(),
            },
            (SharePhase::Head, Reply::Found(found)) => match found {
                Err(e) => self.fail(e),
                Ok(there) => self.upload(there),
            },
            (SharePhase::Copy, Reply::Done(done)) => self.clock(done),
            (SharePhase::Store, Reply::Done(done)) => self.clock(done),
            (SharePhase::Time, Reply::Time(now)) => {
                let row = ShareRow {
                    token: self.token.clone(),
                    source: self.path.clone(),
                    s3_key: self.key(),
                    url: self.url(),
                    size: self.size,
                    is_folder: self.is_dir,
                    created_at: now,
                };
                self.ask(SharePhase::Save, Action::SaveShare { row })
            },
            (SharePhase::Save, Reply::Done(done)) => match done {
                Err(e) => self.fail(e),
                Ok(_) => {
                    self.phase = SharePhase::Over;
                    Step::End(
                        Ok(
                            ShareResult {
                                url: self.url(),
                                token: self.token.clone(),
                                path: self.path.clone(),
                                size: self.size,
                                is_folder: self.is_dir,
                                file_count: self.file_count,
                            },
                        ),
                    )
                },
            },
            _ => self.fail(effects::stray_reply()),
        }
    }
}

// ---- revoking -----------------------------------------------------------------------

/// What a revocation is waiting for.
#[derive(Clone, Copy, Debug)]
pub enum UnsharePhase {
    /// The link in the index.
    Row,
    /// The removal of the object.
    Delete,
    /// The removal of the link.
    Forget,
    /// Nothing more.
    Over,
}

/// The content of a link that may be missing.
pub open spec fn row_opt(r: Option<ShareRow>) -> Option<ShareRowView> {
    match r {
        Some(x) => Some(x@),
        None => None,
    }
}

/// A share link while it is revoked.
pub struct Unshare {
    phase: UnsharePhase,
    token: String,
    cfg: Config,
    row: Option<ShareRow>,
}

/// The content of an `Unshare`.
pub struct UnshareView {
    pub phase: UnsharePhase,
    pub token: Seq<char>,
    pub cfg: ConfigView,
    pub row: Option<ShareRowView>,
}

impl View for Unshare {
    type V = UnshareView;

    closed spec fn view(&self) -> UnshareView {
        UnshareView {
            phase: self.phase,
            token: self.token@,
            cfg: self.cfg@,
            row: row_opt(self.row),
        }
    }
}

impl UnshareView {
    /// A revocation that has not begun.
    pub open spec fn fresh(token: Seq<char>, cfg: ConfigView) -> UnshareView {
        UnshareView { phase: UnsharePhase::Row, token, cfg, row: None }
    }

    /// Asks for an action and waits for what comes of it.
    pub open spec fn ask(self, phase: UnsharePhase, a: ActionView) -> (
        UnshareView,
        StepView<ShareRowView>,
    ) {
        (UnshareView { phase, ..self }, StepView::Ask(a))
    }

    /// Ends with an outcome.
    pub open spec fn end(self, r: Result<ShareRowView, Fault>) -> (UnshareView, StepView<ShareRowView>) {
        (UnshareView { phase: UnsharePhase::Over, ..self }, StepView::End(r))
    }

    /// What a revocation does when `reply` comes in.
    pub open spec fn respond(self, reply: ReplyView) -> (UnshareView, StepView<ShareRowView>) {
        match (self.phase, reply) {
            (UnsharePhase::Row, ReplyView::Share(r)) => match r {
                Err(e) => self.end(Err(e)),
                Ok(None) => self.end(Err(Fault::NotFound("no share with token "@ + self.token))),
                Ok(Some(row)) => UnshareView { row: Some(row), ..self }.ask(
                    UnsharePhase::Delete,
                    ActionView::DeleteObject { at: self.cfg.remote(), key: row.s3_key },
                ),
            },
            (UnsharePhase::Delete, ReplyView::Done(r)) => match r {
                Err(e) => self.end(Err(e)),
                Ok(_) => self.ask(
                    UnsharePhase::Forget,
                    ActionView::ForgetShare { token: self.token },
                ),
            },
            (UnsharePhase::Forget, ReplyView::Done(r)) => match (r, self.row) {
                (Err(e), _) => self.end(Err(e)),
                (Ok(_), Some(row)) => self.end(Ok(row)),
                (Ok(_), None) => self.end(Err(effects::stray())),
            },
            _ => self.end(Err(effects::stray())),
        }
    }
}

impl Flow for UnshareView {
    type Out = ShareRowView;

    open spec fn next(self, reply: ReplyView) -> (UnshareView, StepView<ShareRowView>) {
        self.respond(reply)
    }
}

/// Begins to revoke a share link.
pub fn unshare(token: &str, cfg: &Config) -> (r: (Unshare, Step<ShareRow>))
    ensures
        r.0@ == UnshareView::fresh(token@, cfg@),
        r.1@ == StepView::<ShareRowView>::Ask(ActionView::LoadShare { token: token@ }),
        (r.0@, r.1@) == crate::laws::unshare_start(token@, cfg@),
{
    let f = Unshare {
        phase: UnsharePhase::Row,
        token: token.to_owned(),
        cfg: cfg.clone(),
        row: None,
    };
    (f, Step::Ask(Action::LoadShare { token: token.to_owned() }))
}

impl Unshare {
    fn ask(&mut self, phase: UnsharePhase, a: Action) -> (r: Step<ShareRow>)
        ensures
            (final(self)@, r@) == old(self)@.ask(phase, a@),
    {
        self.phase = phase;
        Step::Ask(a)
    }

    fn fail(&mut self, e: StowError) -> (r: Step<ShareRow>)
        ensures
            (final(self)@, r@) == old(self)@.end(Err(e@)),
    {
        self.phase = UnsharePhase::Over;
        Step::End(Err(e))
    }

    /// Takes what came of the action that was asked for, and says what is next.
    pub fn step(&mut self, reply: Reply) -> (r: Step<ShareRow>)
        ensures
            (final(self)@, r@) == old(self)@.respond(reply@),
    {
        match (self.phase, reply) {
            (UnsharePhase::Row, Reply::Share(found)) => match found {
                Err(e) => self.fail(e),
                Ok(None) => {
                    let m = text::cat2("no share with token ", self.token.as_str());
                    self.fail(StowError::NotFound(m))
                },
                Ok(Some(row)) => {
                    let key = row.s3_key.clone();
                    self.row = Some(row);
                    let a = Action::DeleteObject { at: self.cfg.remote(), key };
                    self.ask(UnsharePhase::Delete, a)
                },
            },
            (UnsharePhase::Delete, Reply::Done(done)) => match done {
                Err(e) => self.fail(e),
                Ok(_) => {
                    let a = Action::ForgetShare { token: self.token.clone() };
                    self.ask(UnsharePhase::Forget, a)
                },
            },
            (UnsharePhase::Forget, Reply::Done(done)) => {
                self.phase = UnsharePhase::Over;
                match done {
                    Err(e) => Step::End(Err(e)),
                    Ok(_) => match &self.row {
                        Some(row) => Step::End(Ok(row.clone())),
                        None => Step::End(Err(effects::stray_reply())),
                    },
                }
            },
            _ => self.fail(effects::stray_reply()),
        }
    }
}

} // verus!

//! How a flow talks to its host.
//!
//! A flow (offloading a file, restoring one, sharing one) decides; its host acts. The
//! flow asks for one action at a time, the host performs it and hands back what came
//! of it, and the flow decides what is next. Every action names the reply that answers
//! it.

use vstd::prelude::*;

use crate::config::{Config, ConfigView};
use crate::error;
use crate::error::{Fault, StowError, StowResult};
use crate::index::{Record, RecordView, ShareRow, ShareRowView};
use crate::placeholder::{Probe, ProbeView, Stub, StubView};
use crate::provider::{Item, ItemView};
use crate::s3;
use crate::s3::{Creds, CredsView, Remote, RemoteView};
use crate::text;

verus! {

/// What a host is asked to do.
pub enum Action {
    /// Write the configuration. Answered by `Done`.
    SaveConfig { cfg: Config },
    /// Open the index of offloaded files, or make an empty one. Answered by `Done`.
    OpenIndex,
    /// Open the store of items, or make an empty one. Answered by `Done`.
    OpenStore,
    /// Tell whether a path, with links followed, is a regular file. Answered by `Kind`.
    StatFile { path: String },
    /// Tell whether a path, with no link followed, is a directory. Answered by `Kind`.
    StatNode { path: String },
    /// Look for a placeholder at a path. Answered by `Probed`.
    Probe { path: String },
    /// Tell whether a path is a link. Answered by `Link`.
    LinkKind { path: String },
    /// Tell the size, mode and modification time of a file. Answered by `Meta`.
    StatMeta { path: String },
    /// Read a file. Answered by `File`.
    ReadFile { path: String },
    /// Write a file, in the place of one that is there. Answered by `Wrote`.
    WriteFile { path: String, data: Vec<u8> },
    /// Remove a file or a link. Answered by `Wrote`.
    RemoveFile { path: String },
    /// Make a symbolic link. Answered by `Wrote`.
    MakeLink { target: Vec<u8>, path: String },
    /// Move a file or a link, in one step, in the place of what is at another path.
    /// Answered by `Wrote`; where it fails, both stay as they are.
    Rename { from: String, to: String },
    /// Set the permissions of a file. Answered by `Wrote`.
    SetMode { path: String, mode: u32 },
    /// Set the access and modification times of a file. Answered by `Wrote`.
    SetTimes { path: String, atime: i64, mtime: i64 },
    /// List a directory, then tell whether there is something at a path. Answered by `Seen`.
    LookFor { dir: Vec<u8>, item: Vec<u8> },
    /// Wait. Answered by `Ready`.
    Sleep { millis: u64 },
    /// Pack a directory with `archive::zip_dir`. Answered by `Zipped`.
    ZipTree { path: String },
    /// Tell whether there is an object. Answered by `Found`.
    HeadObject { at: Remote, key: String },
    /// Upload an object. Answered by `Done`.
    StoreObject { at: Remote, key: String, data: Vec<u8> },
    /// Copy an object within the bucket. Answered by `Done`.
    CopyObject { at: Remote, from: String, key: String },
    /// Download an object. Answered by `Object`.
    GetObject { at: Remote, key: String },
    /// Delete an object. Answered by `Done`.
    DeleteObject { at: Remote, key: String },
    /// Let anyone read the objects of share links. Answered by `Done`.
    OpenShares { at: Remote },
    /// Tell whether there is a bucket that is ours. Answered by `Found`.
    HeadBucket { at: Remote },
    /// Create a bucket. Answered by `Wrote`.
    CreateBucket { at: Remote, location: Option<String> },
    /// Tell the account that requests are made for. Answered by `Text`.
    AccountId { region: String },
    /// Look for credentials in the standard places. Answered by `Creds`.
    ResolveCreds { region: String },
    /// Tell the time, in seconds since 1970. Answered by `Time`.
    Clock,
    /// Draw random bytes. Answered by `Random`.
    RandomBytes { count: usize },
    /// Look up an offloaded file by its path. Answered by `Record`.
    LoadRecord { path: String },
    /// Record an offloaded file (`Index::upsert`). Answered by `Done`.
    SaveRecord { rec: Record },
    /// Flag an offloaded file as restored (`Index::set_restored`). Answered by `Done`.
    MarkRestored { path: String },
    /// List all offloaded files (`Index::all`). Answered by `Records`.
    LoadRecords,
    /// Look up a share link by its token. Answered by `Share`.
    LoadShare { token: String },
    /// Record a share link (`Index::add_share`). Answered by `Done`.
    SaveShare { row: ShareRow },
    /// Forget a share link (`Index::remove_share`). Answered by `Done`.
    ForgetShare { token: String },
    /// Look up an item by its identifier. Answered by `Item`.
    LoadItem { item_id: String },
    /// List all items. Answered by `Items`.
    LoadItems,
    /// Store an item (`Store::upsert`). Answered by `Done`.
    SaveItem { item: Item },
    /// Tell whether the bytes of an item are only in the bucket (`Store::set_dataless`). Answered by `Done`.
    SetDataless { item_id: String, dataless: bool },
    /// Note when an item was read (`Store::touch_access`). Answered by `Done`.
    TouchAccess { item_id: String, ts: i64 },
    /// Find where the Stow folder is mounted. Answered by `Mount`.
    FindMount,
    /// Show an offloaded file in the mirror area, as a dataless item. Answered by `Text`, the name of the item.
    MirrorItem { rec: Record },
    /// Take an offloaded file out of the mirror area; a failure is passed over. Answered by `Ready`.
    RemoveMirror { path: String },
    /// Tell the agent that the items have changed. Answered by `Ready`.
    Signal,
    /// Write the description of a stub as JSON. Answered by `Text`.
    RenderStub { stub: Stub },
}

/// The content of an `Action`.
pub enum ActionView {
    SaveConfig { cfg: ConfigView },
    OpenIndex,
    OpenStore,
    StatFile { path: Seq<char> },
    StatNode { path: Seq<char> },
    Probe { path: Seq<char> },
    LinkKind { path: Seq<char> },
    StatMeta { path: Seq<char> },
    ReadFile { path: Seq<char> },
    WriteFile { path: Seq<char>, data: Seq<u8> },
    RemoveFile { path: Seq<char> },
    MakeLink { target: Seq<u8>, path: Seq<char> },
    Rename { from: Seq<char>, to: Seq<char> },
    SetMode { path: Seq<char>, mode: u32 },
    SetTimes { path: Seq<char>, atime: i64, mtime: i64 },
    LookFor { dir: Seq<u8>, item: Seq<u8> },
    Sleep { millis: u64 },
    ZipTree { path: Seq<char> },
    HeadObject { at: RemoteView, key: Seq<char> },
    StoreObject { at: RemoteView, key: Seq<char>, data: Seq<u8> },
    CopyObject { at: RemoteView, from: Seq<char>, key: Seq<char> },
    GetObject { at: RemoteView, key: Seq<char> },
    DeleteObject { at: RemoteView, key: Seq<char> },
    OpenShares { at: RemoteView },
    HeadBucket { at: RemoteView },
    CreateBucket { at: RemoteView, location: Option<Seq<char>> },
    AccountId { region: Seq<char> },
    ResolveCreds { region: Seq<char> },
    Clock,
    RandomBytes { count: usize },
    LoadRecord { path: Seq<char> },
    SaveRecord { rec: RecordView },
    MarkRestored { path: Seq<char> },
    LoadRecords,
    LoadShare { token: Seq<char> },
    SaveShare { row: ShareRowView },
    ForgetShare { token: Seq<char> },
    LoadItem { item_id: Seq<char> },
    LoadItems,
    SaveItem { item: ItemView },
    SetDataless { item_id: Seq<char>, dataless: bool },
    TouchAccess { item_id: Seq<char>, ts: i64 },
    FindMount,
    MirrorItem { rec: RecordView },
    RemoveMirror { path: Seq<char> },
    Signal,
    RenderStub { stub: StubView },
}

impl View for Action {
    type V = ActionView;

    open spec fn view(&self) -> ActionView {
        match *self {
            Action::SaveConfig { cfg } => ActionView::SaveConfig { cfg: cfg@ },
            Action::OpenIndex => ActionView::OpenIndex,
            Action::OpenStore => ActionView::OpenStore,
            Action::StatFile { path } => ActionView::StatFile { path: path@ },
            Action::StatNode { path } => ActionView::StatNode { path: path@ },
            Action::Probe { path } => ActionView::Probe { path: path@ },
            Action::LinkKind { path } => ActionView::LinkKind { path: path@ },
            Action::StatMeta { path } => ActionView::StatMeta { path: path@ },
            Action::ReadFile { path } => ActionView::ReadFile { path: path@ },
            Action::WriteFile { path, data } => ActionView::WriteFile { path: path@, data: data@ },
            Action::RemoveFile { path } => ActionView::RemoveFile { path: path@ },
            Action::MakeLink { target, path } => ActionView::MakeLink { target: target@, path: path@ },
            Action::Rename { from, to } => ActionView::Rename { from: from@, to: to@ },
            Action::SetMode { path, mode } => ActionView::SetMode { path: path@, mode },
            Action::SetTimes { path, atime, mtime } => ActionView::SetTimes { path: path@, atime, mtime },
            Action::LookFor { dir, item } => ActionView::LookFor { dir: dir@, item: item@ },
            Action::Sleep { millis } => ActionView::Sleep { millis },
            Action::ZipTree { path } => ActionView::ZipTree { path: path@ },
            Action::HeadObject { at, key } => ActionView::HeadObject { at: at@, key: key@ },
            Action::StoreObject { at, key, data } => ActionView::StoreObject { at: at@, key: key@, data: data@ },
            Action::CopyObject { at, from, key } => ActionView::CopyObject { at: at@, from: from@, key: key@ },
            Action::GetObject { at, key } => ActionView::GetObject { at: at@, key: key@ },
            Action::DeleteObject { at, key } => ActionView::DeleteObject { at: at@, key: key@ },
            Action::OpenShares { at } => ActionView::OpenShares { at: at@ },
            Action::HeadBucket { at } => ActionView::HeadBucket { at: at@ },
            Action::CreateBucket { at, location } => ActionView::CreateBucket { at: at@, location: text::text_opt(location) },
            Action::AccountId { region } => ActionView::AccountId { region: region@ },
            Action::ResolveCreds { region } => ActionView::ResolveCreds { region: region@ },
            Action::Clock => ActionView::Clock,
            Action::RandomBytes { count } => ActionView::RandomBytes { count },
            Action::LoadRecord { path } => ActionView::LoadRecord { path: path@ },
            Action::SaveRecord { rec } => ActionView::SaveRecord { rec: rec@ },
            Action::MarkRestored { path } => ActionView::MarkRestored { path: path@ },
            Action::LoadRecords => ActionView::LoadRecords,
            Action::LoadShare { token } => ActionView::LoadShare { token: token@ },
            Action::SaveShare { row } => ActionView::SaveShare { row: row@ },
            Action::ForgetShare { token } => ActionView::ForgetShare { token: token@ },
            Action::LoadItem { item_id } => ActionView::LoadItem { item_id: item_id@ },
            Action::LoadItems => ActionView::LoadItems,
            Action::SaveItem { item } => ActionView::SaveItem { item: item@ },
            Action::SetDataless { item_id, dataless } => ActionView::SetDataless { item_id: item_id@, dataless },
            Action::TouchAccess { item_id, ts } => ActionView::TouchAccess { item_id: item_id@, ts },
            Action::FindMount => ActionView::FindMount,
            Action::MirrorItem { rec } => ActionView::MirrorItem { rec: rec@ },
            Action::RemoveMirror { path } => ActionView::RemoveMirror { path: path@ },
            Action::Signal => ActionView::Signal,
            Action::RenderStub { stub } => ActionView::RenderStub { stub: stub@ },
        }
    }
}

/// What a path is, with no link followed.
#[derive(Clone, Copy, Debug)]
pub enum LinkKind {
    Link,
    Other,
    Missing,
}

/// What is known of a file besides its content.
#[derive(Clone, Copy, Debug)]
pub struct Meta {
    pub size: i64,
    pub mode: u32,
    pub mtime: i64,
}

impl View for Meta {
    type V = Meta;

    open spec fn view(&self) -> Meta {
        *self
    }
}

/// The content of a list of items.
pub open spec fn items_of(r: StowResult<Vec<Item>>) -> Result<Seq<Item>, Fault> {
    match r {
        Ok(v) => Ok(v@),
        Err(e) => Err(e@),
    }
}

/// What came of an action.
pub enum Reply {
    /// An action that always works was performed.
    Ready,
    /// A call that gives nothing back.
    Done(StowResult<()>),
    /// A call that gives nothing back, or a message.
    Wrote(Result<(), String>),
    /// A yes or no, or a message.
    Kind(Result<bool, String>),
    /// What was found at a path.
    Probed(Probe),
    /// Whether a path is a link.
    Link(LinkKind),
    /// What is known of a file besides its content.
    Meta(Result<Meta, String>),
    /// The bytes of a file, or a message.
    File(Result<Vec<u8>, String>),
    /// Whether there is something at a path.
    Seen(bool),
    /// A packed directory, and how many files are in it.
    Zipped(StowResult<(Vec<u8>, usize)>),
    /// Whether there is an object or a bucket.
    Found(StowResult<bool>),
    /// The bytes of an object.
    Object(StowResult<Vec<u8>>),
    /// A text.
    Text(StowResult<String>),
    /// Credentials, if there are any.
    Creds(Option<Creds>),
    /// A time.
    Time(i64),
    /// Random bytes, or a message.
    Random(Result<Vec<u8>, String>),
    /// An offloaded file, if the path is known.
    Record(StowResult<Option<Record>>),
    /// Offloaded files.
    Records(StowResult<Vec<Record>>),
    /// A share link, if the token is known.
    Share(StowResult<Option<ShareRow>>),
    /// An item, if the identifier is known.
    Item(StowResult<Option<Item>>),
    /// Items.
    Items(StowResult<Vec<Item>>),
    /// Where the Stow folder is mounted, if it is.
    Mount(Option<Vec<u8>>),
}

/// The content of a `Reply`.
pub enum ReplyView {
    Ready,
    Done(Result<(), Fault>),
    Wrote(Result<(), Seq<char>>),
    Kind(Result<bool, Seq<char>>),
    Probed(ProbeView),
    Link(LinkKind),
    Meta(Result<Meta, Seq<char>>),
    File(Result<Seq<u8>, Seq<char>>),
    Seen(bool),
    Zipped(Result<(Seq<u8>, usize), Fault>),
    Found(Result<bool, Fault>),
    Object(Result<Seq<u8>, Fault>),
    Text(Result<Seq<char>, Fault>),
    Creds(Option<CredsView>),
    Time(i64),
    Random(Result<Seq<u8>, Seq<char>>),
    Record(Result<Option<RecordView>, Fault>),
    Records(Result<Seq<RecordView>, Fault>),
    Share(Result<Option<ShareRowView>, Fault>),
    Item(Result<Option<ItemView>, Fault>),
    Items(Result<Seq<Item>, Fault>),
    Mount(Option<Seq<u8>>),
}

impl View for Reply {
    type V = ReplyView;

    open spec fn view(&self) -> ReplyView {
        match *self {
            Reply::Ready => ReplyView::Ready,
            Reply::Done(x) => ReplyView::Done(error::outcome_of(x)),
            Reply::Wrote(x) => ReplyView::Wrote(error::reply_of(x)),
            Reply::Kind(x) => ReplyView::Kind(error::reply_of(x)),
            Reply::Probed(x) => ReplyView::Probed(x@),
            Reply::Link(x) => ReplyView::Link(x),
            Reply::Meta(x) => ReplyView::Meta(error::reply_of(x)),
            Reply::File(x) => ReplyView::File(error::reply_of(x)),
            Reply::Seen(x) => ReplyView::Seen(x),
            Reply::Zipped(x) => ReplyView::Zipped(error::outcome_of(x)),
            Reply::Found(x) => ReplyView::Found(error::outcome_of(x)),
            Reply::Object(x) => ReplyView::Object(error::outcome_of(x)),
            Reply::Text(x) => ReplyView::Text(error::outcome_of(x)),
            Reply::Creds(x) => ReplyView::Creds(s3::creds_opt(x)),
            Reply::Time(x) => ReplyView::Time(x),
            Reply::Random(x) => ReplyView::Random(error::reply_of(x)),
            Reply::Record(x) => ReplyView::Record(error::outcome_opt(x)),
            Reply::Records(x) => ReplyView::Records(error::outcome_seq(x)),
            Reply::Share(x) => ReplyView::Share(error::outcome_opt(x)),
            Reply::Item(x) => ReplyView::Item(error::outcome_opt(x)),
            Reply::Items(x) => ReplyView::Items(items_of(x)),
            Reply::Mount(x) => ReplyView::Mount(text::bytes_opt(x)),
        }
    }
}

/// What a flow does next: ask for an action, or end with an outcome.
pub enum Step<T> {
    Ask(Action),
    End(StowResult<T>),
}

/// The content of a `Step`.
pub enum StepView<T> {
    Ask(ActionView),
    End(Result<T, Fault>),
}

impl<T: View> View for Step<T> {
    type V = StepView<T::V>;

    open spec fn view(&self) -> StepView<T::V> {
        match *self {
            Step::Ask(a) => StepView::Ask(a@),
            Step::End(r) => StepView::End(error::outcome_of(r)),
        }
    }
}

/// A flow, as it is described in contracts.
pub trait Flow: Sized {
    /// What the flow gives back when it succeeds.
    type Out;

    /// What the flow does when a reply comes in.
    spec fn next(self, reply: ReplyView) -> (Self, StepView<Self::Out>);
}

/// Where a flow stands, and what it does next, after some replies have come in.
pub open spec fn run<F: Flow>(start: (F, StepView<F::Out>), replies: Seq<ReplyView>) -> (
    F,
    StepView<F::Out>,
)
    decreases replies.len(),
{
    if replies.len() == 0 {
        start
    } else {
        run(start, replies.drop_last()).0.next(replies.last())
    }
}

/// Whether a flow has asked for an action and was given a certain reply.
pub open spec fn happened<F: Flow>(
    start: (F, StepView<F::Out>),
    replies: Seq<ReplyView>,
    a: ActionView,
    reply: ReplyView,
) -> bool {
    exists|i: int|
        0 <= i < replies.len() && #[trigger] run(start, replies.take(i)).1 == StepView::<
            F::Out,
        >::Ask(a) && replies[i] == reply
}

/// What has happened stays so when one more reply comes in, and that reply answers the
/// action that was asked for last.
pub proof fn lemma_happened<F: Flow>(start: (F, StepView<F::Out>), replies: Seq<ReplyView>)
    requires
        replies.len() > 0,
    ensures
        forall|a: ActionView, reply: ReplyView|
            happened(start, replies.drop_last(), a, reply) ==> #[trigger] happened(
                start,
                replies,
                a,
                reply,
            ),
        forall|a: ActionView|
            run(start, replies.drop_last()).1 == StepView::<F::Out>::Ask(a) ==> #[trigger] happened(
                start,
                replies,
                a,
                replies.last(),
            ),
{
    let front = replies.drop_last();
    assert forall|a: ActionView, reply: ReplyView|
        happened(start, front, a, reply) implies #[trigger] happened(start, replies, a, reply) by {
        let i = choose|i: int|
            0 <= i < front.len() && #[trigger] run(start, front.take(i)).1 == StepView::<
                F::Out,
            >::Ask(a) && front[i] == reply;
        assert(front.take(i) =~= replies.take(i));
        assert(run(start, replies.take(i)).1 == StepView::<F::Out>::Ask(a));
        assert(replies[i] == reply);
    }
    assert forall|a: ActionView|
        run(start, front).1 == StepView::<F::Out>::Ask(a) implies #[trigger] happened(
        start,
        replies,
        a,
        replies.last(),
    ) by {
        let i = replies.len() - 1;
        assert(replies.take(i) =~= front);
        assert(run(start, replies.take(i)).1 == StepView::<F::Out>::Ask(a));
    }
}

/// What has happened had happened before the last reply came in, or that reply made it
/// happen.
pub proof fn lemma_happened_last<F: Flow>(
    start: (F, StepView<F::Out>),
    replies: Seq<ReplyView>,
    a: ActionView,
    reply: ReplyView,
)
    requires
        replies.len() > 0,
        happened(start, replies, a, reply),
    ensures
        happened(start, replies.drop_last(), a, reply) || (run(start, replies.drop_last()).1
            == StepView::<F::Out>::Ask(a) && replies.last() == reply),
{
    let front = replies.drop_last();
    let i = choose|i: int|
        0 <= i < replies.len() && #[trigger] run(start, replies.take(i)).1 == StepView::<
            F::Out,
        >::Ask(a) && replies[i] == reply;
    if i < front.len() {
        assert(front.take(i) =~= replies.take(i));
        assert(run(start, front.take(i)).1 == StepView::<F::Out>::Ask(a));
        assert(front[i] == reply);
    } else {
        assert(front =~= replies.take(i));
    }
}

/// The error for a reply that does not answer the action that was asked for.
pub open spec fn stray() -> Fault {
    Fault::Unknown("the reply does not answer the request"@)
}

/// The error for a reply that does not answer the action that was asked for.
pub fn stray_reply() -> (r: StowError)
    ensures
        r@ == stray(),
{
    StowError::Unknown("the reply does not answer the request".to_owned())
}

} // verus!

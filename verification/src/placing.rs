//! Laws of an offload as it replaces a file: what the file is replaced by, when a stub has to
//! do, and what is reported.

use vstd::prelude::*;
use vstd::utf8::encode_utf8;

use crate::config::ConfigView;
use crate::effects;
use crate::effects::{ActionView, LinkKind, Meta, ReplyView, StepView};
use crate::error::Fault;
use crate::hash;
use crate::index::RecordView;
use crate::laws;
use crate::offload::{OffloadPhase, OffloadResultView, OffloadView};
use crate::paths;
use crate::placeholder::{ProbeView, StubView};
use crate::text;

verus! {

/// What an offload has learnt of its file, reply by reply: the bytes, the metadata, and
/// whether the content was in the bucket.
spec fn file_learnt(s: OffloadView, replies: Seq<ReplyView>) -> bool {
    &&& replies.len() >= 5
    &&& replies[2] is File
    &&& replies[2]->File_0 is Ok
    &&& s.hash == hash::blake3_hex(replies[2]->File_0->Ok_0)
    &&& replies[3] == ReplyView::Meta(
        Ok(Meta { size: s.size, mode: s.mode, mtime: s.mtime }),
    )
    &&& s.key == s.cfg.prefix + s.hash
    &&& replies[4] == ReplyView::Found(Ok(s.deduped))
}

spec fn is_late(p: OffloadPhase) -> bool {
    ||| p is Head
    ||| p is Store
    ||| p is Time
    ||| p is Save
    ||| is_replacing(p)
}

spec fn is_replacing(p: OffloadPhase) -> bool {
    ||| p is Mount
    ||| p is Mirror
    ||| is_named(p)
    ||| p is Render
    ||| p is Write
}

spec fn is_named(p: OffloadPhase) -> bool {
    ||| p is Signal
    ||| p is Look
    ||| p is Pause
    ||| is_linking(p)
}

spec fn is_linking(p: OffloadPhase) -> bool {
    ||| p is Free
    ||| p is Link
    ||| p is Put
    ||| p is Undo
}

/// Whether the last replies are so many looks for an item, each in vain and followed by a
/// pause.
pub open spec fn looked_in_vain(replies: Seq<ReplyView>, n: int) -> bool {
    &&& replies.len() >= 2 * n
    &&& forall|i: int|
        #![trigger replies[replies.len() - 1 - 2 * i]]
        0 <= i < n ==> replies[replies.len() - 1 - 2 * i] == ReplyView::Ready && replies[replies.len()
            - 2 - 2 * i] == ReplyView::Seen(false)
}

/// Whether an offload was told where the Stow folder is mounted, and by what name the item of
/// the file's record goes in the mirror area.
pub open spec fn item_named(
    start: (OffloadView, StepView<OffloadResultView>),
    replies: Seq<ReplyView>,
    root: Seq<u8>,
    rec: RecordView,
    name: Seq<char>,
) -> bool {
    &&& effects::happened(start, replies, ActionView::FindMount, ReplyView::Mount(Some(root)))
    &&& effects::happened(start, replies, ActionView::SaveRecord { rec }, ReplyView::Done(Ok(())))
    &&& effects::happened(
        start,
        replies,
        ActionView::MirrorItem { rec },
        ReplyView::Text(Ok(name)),
    )
}

/// Whether an offload has a reason to leave a stub: the mirror area is known not to respond,
/// or is not there, refuses the item, or does not show it; no name is free for a link, or it
/// cannot be made or moved.
pub open spec fn needs_a_stub(
    start: (OffloadView, StepView<OffloadResultView>),
    replies: Seq<ReplyView>,
) -> bool {
    ||| start.0.fp_down
    ||| replies.last() == ReplyView::Mount(None)
    ||| exists|rec: RecordView, e: Fault| #[trigger]
        effects::happened(
            start,
            replies,
            ActionView::MirrorItem { rec },
            ReplyView::Text(Err(e)),
        )
    ||| looked_in_vain(replies, 50)
    ||| replies.last() is Link && replies.last()->Link_0 != LinkKind::Missing
    ||| exists|target: Seq<u8>, spot: Seq<char>, m: Seq<char>| #[trigger]
        effects::happened(
            start,
            replies,
            ActionView::MakeLink { target, path: spot },
            ReplyView::Wrote(Err(m)),
        )
    ||| exists|from: Seq<char>, to: Seq<char>, m: Seq<char>| #[trigger]
        effects::happened(
            start,
            replies,
            ActionView::Rename { from, to },
            ReplyView::Wrote(Err(m)),
        )
}

/// What an offload asks for in each phase.
spec fn asks(s: OffloadView, step: StepView<OffloadResultView>) -> bool {
    let ask = |a: ActionView| StepView::<OffloadResultView>::Ask(a);
    &&& s.phase is Kind ==> step == ask(ActionView::StatFile { path: s.path })
    &&& s.phase is Probe ==> step == ask(ActionView::Probe { path: s.path })
    &&& s.phase is Read ==> step == ask(ActionView::ReadFile { path: s.path })
    &&& s.phase is Meta ==> step == ask(ActionView::StatMeta { path: s.path })
    &&& s.phase is Save ==> step == ask(ActionView::SaveRecord { rec: s.record() })
    &&& s.phase is Mount ==> step == ask(ActionView::FindMount)
    &&& s.phase is Mirror ==> step == ask(ActionView::MirrorItem { rec: s.record() })
    &&& s.phase is Look ==> step == ask(
        ActionView::LookFor { dir: s.mirror_dir(), item: s.target },
    )
    &&& s.phase is Pause ==> step == ask(ActionView::Sleep { millis: 200 })
    &&& s.phase is Free ==> step == ask(ActionView::LinkKind { path: s.spot() })
    &&& s.phase is Link ==> step == ask(
        ActionView::MakeLink { target: s.target, path: s.spot() },
    )
    &&& s.phase is Put ==> step == ask(ActionView::Rename { from: s.spot(), to: s.path })
    &&& s.phase is Render ==> step == ask(
        ActionView::RenderStub {
            stub: StubView {
                path: s.path,
                hash: s.hash,
                size: s.size,
                s3_key: s.key,
                bucket: s.cfg.bucket,
                region: s.cfg.region,
            },
        },
    )
    &&& s.phase is Over <==> step is End
    &&& step matches StepView::Ask(a) ==> {
        &&& a is MakeLink ==> s.phase is Link
        &&& a is Rename ==> s.phase is Put
        &&& a is WriteFile ==> s.phase is Write
        &&& a is RenderStub ==> s.phase is Render
        &&& a is FindMount ==> s.phase is Mount
        &&& a is MirrorItem ==> s.phase is Mirror
        &&& a is LookFor ==> s.phase is Look
        &&& a is Sleep ==> s.phase is Pause
        &&& a is StoreObject ==> s.phase is Store
        &&& a is SaveRecord ==> s.phase is Save
        &&& a is StatFile ==> s.phase is Kind
    }
}

/// What one reply does to an offload.
spec fn moves_on(s: OffloadView, reply: ReplyView) -> bool {
    let (t, next) = s.respond(reply);
    &&& asks(t, next)
    &&& t.path == s.path && t.cfg == s.cfg && t.inplace == s.inplace
    &&& t.phase is Probe ==> s.phase is Kind && reply == ReplyView::Kind(Ok(true))
    &&& t.phase is Read ==> s.phase is Probe
    &&& t.phase is Meta ==> s.phase is Read && reply == ReplyView::File(Ok(t.data))
    &&& t.phase is Known ==> s.phase is Meta && reply == ReplyView::Meta(
        Ok(Meta { size: t.size, mode: t.mode, mtime: t.mtime }),
    ) && t.hash == hash::blake3_hex(s.data) && t.key == s.cfg.prefix + t.hash
    &&& t.phase is Head ==> s.phase is Known && reply == ReplyView::Found(Ok(t.deduped)) && t.hash
        == s.hash && t.key == s.key && t.size == s.size && t.mode == s.mode && t.mtime == s.mtime
    &&& is_late(t.phase) && !(t.phase is Head) ==> is_late(s.phase) && t.hash == s.hash && t.key
        == s.key && t.size == s.size && t.mode == s.mode && t.mtime == s.mtime && t.deduped
        == s.deduped
    &&& t.phase is Save ==> s.phase is Time && reply == ReplyView::Time(t.time)
    &&& t.phase is Time ==> next == StepView::<OffloadResultView>::Ask(ActionView::Clock)
    &&& is_replacing(t.phase) && is_replacing(s.phase) ==> t.time == s.time
    &&& is_replacing(t.phase) && !is_replacing(s.phase) ==> s.phase is Save && t.time == s.time
        && reply is Done && reply->Done_0 is Ok && (t.phase is Mount || s.fp_down)
    &&& t.phase is Mirror ==> s.phase is Mount && reply == ReplyView::Mount(Some(t.root))
    &&& t.phase is Signal ==> s.phase is Mirror && reply is Text && reply->Text_0 is Ok && t.root
        == s.root && t.target == text::joined_bytes(
        s.mirror_dir(),
        encode_utf8(reply->Text_0->Ok_0),
    )
    &&& is_named(t.phase) && !(t.phase is Signal) ==> is_named(s.phase) && t.root == s.root
        && t.target == s.target
    &&& t.phase is Look ==> (s.phase is Signal && t.tries == 0) || (s.phase is Pause && t.tries
        == s.tries + 1 && t.tries < 50 && reply == ReplyView::Ready)
    &&& t.phase is Pause ==> s.phase is Look && reply == ReplyView::Seen(false) && t.tries
        == s.tries
    &&& is_linking(t.phase) && !is_linking(s.phase) ==> s.phase is Look && reply
        == ReplyView::Seen(true)
    &&& t.phase is Link ==> s.phase is Free && reply == ReplyView::Link(LinkKind::Missing)
        && t.tries == s.tries
    &&& t.phase is Put ==> s.phase is Link && reply is Wrote && reply->Wrote_0 is Ok && t.tries
        == s.tries
    &&& t.phase is Undo ==> s.phase is Put && reply is Wrote && reply->Wrote_0 is Err && t.tries
        == s.tries
    &&& t.phase is Render ==> {
        ||| s.phase is Save && s.fp_down
        ||| s.phase is Mount && reply == ReplyView::Mount(None)
        ||| s.phase is Mirror && reply is Text && reply->Text_0 is Err
        ||| s.phase is Pause && reply == ReplyView::Ready && s.tries + 1 >= 50
        ||| s.phase is Free && reply is Link && reply->Link_0 != LinkKind::Missing
        ||| s.phase is Link && reply is Wrote && reply->Wrote_0 is Err
        ||| s.phase is Undo
    }
    &&& t.phase is Write ==> s.phase is Render && reply is Text && reply->Text_0 is Ok && next
        == StepView::<OffloadResultView>::Ask(
        ActionView::WriteFile {
            path: s.path,
            data: seq![83u8, 84u8, 79u8, 87u8, 49u8, 10u8] + encode_utf8(reply->Text_0->Ok_0)
                + seq![10u8],
        },
    )
    &&& next matches StepView::End(Ok(res)) ==> {
        &&& reply is Wrote && reply->Wrote_0 is Ok
        &&& s.phase is Put && res.transparent || s.phase is Write && !res.transparent
        &&& res.path == s.path
        &&& res.hash == s.hash
        &&& res.bytes_freed == s.size
        &&& res.s3_key == s.key
        &&& res.deduped == s.deduped
    }
    &&& !(t.phase is Over) && !(t.phase is Render) ==> t.fp_down == s.fp_down
}

#[verifier::spinoff_prover]
#[verifier::rlimit(60)]
proof fn lemma_moves_on(s: OffloadView, reply: ReplyView)
    ensures
        moves_on(s, reply),
{
}

/// What is known of an offload that replaces its file.
spec fn placing_known(
    path: Seq<char>,
    cfg: ConfigView,
    inplace: Seq<char>,
    fp_down: bool,
    replies: Seq<ReplyView>,
) -> bool {
    let start = laws::offload_start(path, cfg, inplace, fp_down);
    let (s, step) = effects::run(start, replies);
    &&& s.path == path && s.cfg == cfg && s.inplace == inplace
    &&& !(s.phase is Over || s.phase is Render || s.phase is Write) ==> s.fp_down == fp_down
    &&& asks(s, step)
    &&& s.phase is Kind ==> replies.len() == 0
    &&& s.phase is Probe ==> replies.len() == 1
    &&& s.phase is Read ==> replies.len() == 2
    &&& s.phase is Meta ==> replies.len() == 3 && replies[2] == ReplyView::File(Ok(s.data))
    &&& s.phase is Known ==> {
        &&& replies.len() == 4
        &&& replies[2] is File
        &&& replies[2]->File_0 is Ok
        &&& s.hash == hash::blake3_hex(replies[2]->File_0->Ok_0)
        &&& replies[3] == ReplyView::Meta(
            Ok(Meta { size: s.size, mode: s.mode, mtime: s.mtime }),
        )
        &&& s.key == cfg.prefix + s.hash
    }
    &&& is_late(s.phase) ==> file_learnt(s, replies)
    &&& s.phase is Time ==> step == StepView::<OffloadResultView>::Ask(ActionView::Clock)
    &&& s.phase is Save ==> replies.len() > 0 && replies.last() == ReplyView::Time(s.time)
        && effects::run(start, replies.drop_last()).1 == StepView::<OffloadResultView>::Ask(
        ActionView::Clock,
    )
    &&& is_replacing(s.phase) ==> effects::happened(
        start,
        replies,
        ActionView::SaveRecord { rec: s.record() },
        ReplyView::Done(Ok(())),
    )
    &&& s.phase is Mirror || is_named(s.phase) ==> effects::happened(
        start,
        replies,
        ActionView::FindMount,
        ReplyView::Mount(Some(s.root)),
    )
    &&& is_named(s.phase) ==> exists|name: Seq<char>|
        #[trigger] item_named(start, replies, s.root, s.record(), name) && s.target
            == text::joined_bytes(s.mirror_dir(), encode_utf8(name))
    &&& s.phase is Mount || s.phase is Mirror || is_named(s.phase) ==> !fp_down
    &&& s.phase is Look ==> looked_in_vain(replies, s.tries as int) && s.tries < 50
    &&& s.phase is Pause ==> replies.len() > 0 && replies.last() == ReplyView::Seen(false)
        && looked_in_vain(replies.drop_last(), s.tries as int) && s.tries < 50
    &&& is_linking(s.phase) ==> effects::happened(
        start,
        replies,
        ActionView::LookFor { dir: s.mirror_dir(), item: s.target },
        ReplyView::Seen(true),
    )
    &&& s.phase is Link ==> replies.len() > 0 && replies.last() == ReplyView::Link(
        LinkKind::Missing,
    ) && effects::run(start, replies.drop_last()).1 == StepView::<OffloadResultView>::Ask(
        ActionView::LinkKind { path: s.spot() },
    )
    &&& s.phase is Put ==> replies.len() > 0 && replies.last() == ReplyView::Wrote(Ok(()))
        && effects::run(start, replies.drop_last()).1 == StepView::<OffloadResultView>::Ask(
        ActionView::MakeLink { target: s.target, path: s.spot() },
    )
    &&& s.phase is Undo ==> exists|from: Seq<char>, to: Seq<char>, m: Seq<char>| #[trigger]
        effects::happened(
            start,
            replies,
            ActionView::Rename { from, to },
            ReplyView::Wrote(Err(m)),
        )
    &&& s.phase is Render ==> replies.len() > 0 && needs_a_stub(start, replies)
    &&& s.phase is Write ==> {
        &&& replies.len() > 0
        &&& effects::run(start, replies.drop_last()).1 == StepView::<OffloadResultView>::Ask(
            ActionView::RenderStub {
                stub: StubView {
                    path,
                    hash: s.hash,
                    size: s.size,
                    s3_key: s.key,
                    bucket: cfg.bucket,
                    region: cfg.region,
                },
            },
        )
        &&& replies.last() is Text
        &&& replies.last()->Text_0 is Ok
        &&& step == StepView::<OffloadResultView>::Ask(
            ActionView::WriteFile {
                path,
                data: seq![83u8, 84u8, 79u8, 87u8, 49u8, 10u8] + encode_utf8(
                    replies.last()->Text_0->Ok_0,
                ) + seq![10u8],
            },
        )
    }
    &&& step matches StepView::End(Ok(res)) ==> placed_as(start, replies, res)
}

/// Whether a result is what the replies of an offload amount to.
spec fn placed_as(
    start: (OffloadView, StepView<OffloadResultView>),
    replies: Seq<ReplyView>,
    res: OffloadResultView,
) -> bool {
    &&& res.path == start.0.path
    &&& replies.len() >= 5
    &&& replies[2] is File
    &&& replies[2]->File_0 is Ok
    &&& res.hash == hash::blake3_hex(replies[2]->File_0->Ok_0)
    &&& replies[3] is Meta
    &&& replies[3]->Meta_0 is Ok
    &&& res.bytes_freed == replies[3]->Meta_0->Ok_0.size
    &&& res.s3_key == start.0.cfg.prefix + res.hash
    &&& replies[4] == ReplyView::Found(Ok(res.deduped))
    &&& replies.last() == ReplyView::Wrote(Ok(()))
    &&& effects::run(start, replies.drop_last()).1 is Ask
    &&& ({
        let last = effects::run(start, replies.drop_last()).1->Ask_0;
        if res.transparent {
            last is Rename && last->Rename_to == res.path
        } else {
            last is WriteFile && last->WriteFile_path == res.path
        }
    })
}

/// One more look in vain and a pause.
#[verifier::spinoff_prover]
pub proof fn lemma_in_vain(replies: Seq<ReplyView>, n: int)
    requires
        replies.len() >= 2,
        n >= 0,
        replies.last() == ReplyView::Ready,
        replies.drop_last().last() == ReplyView::Seen(false),
        looked_in_vain(replies.drop_last().drop_last(), n),
    ensures
        looked_in_vain(replies, n + 1),
{
    let front = replies.drop_last().drop_last();
    assert forall|i: int|
        #![trigger replies[replies.len() - 1 - 2 * i]]
        0 <= i < n + 1 implies replies[replies.len() - 1 - 2 * i] == ReplyView::Ready
        && replies[replies.len() - 2 - 2 * i] == ReplyView::Seen(false) by {
        if i > 0 {
            let j = i - 1;
            assert(front[front.len() - 1 - 2 * j] == ReplyView::Ready);
            assert(front[front.len() - 2 - 2 * j] == ReplyView::Seen(false));
            assert(front.len() - 1 - 2 * j == replies.len() - 1 - 2 * i);
        }
    }
}

#[verifier::spinoff_prover]
#[verifier::rlimit(100)]
proof fn lemma_placing_known(
    path: Seq<char>,
    cfg: ConfigView,
    inplace: Seq<char>,
    fp_down: bool,
    replies: Seq<ReplyView>,
)
    ensures
        placing_known(path, cfg, inplace, fp_down, replies),
    decreases replies.len(),
{
    let start = laws::offload_start(path, cfg, inplace, fp_down);
    if replies.len() > 0 {
        let front = replies.drop_last();
        let reply = replies.last();
        lemma_placing_known(path, cfg, inplace, fp_down, front);
        effects::lemma_happened(start, replies);
        let (s, step) = effects::run(start, front);
        let (t, next) = s.respond(reply);
        assert(effects::run(start, replies) == (t, next));
        lemma_moves_on(s, reply);
        assert forall|i: int| 0 <= i < front.len() implies front[i] == replies[i] by {}
        if reply is Wrote && reply->Wrote_0 is Ok {
            assert(reply->Wrote_0->Ok_0 == ());
        }
        if reply is Done && reply->Done_0 is Ok {
            assert(reply->Done_0->Ok_0 == ());
        }
        assert(is_replacing(t.phase) ==> t.record() == s.record());
        if t.phase is Signal {
            let name = reply->Text_0->Ok_0;
            assert(reply == ReplyView::Text(Ok(name)));
            assert(item_named(start, replies, t.root, t.record(), name));
        } else if is_named(t.phase) {
            let name = choose|name: Seq<char>|
                #[trigger] item_named(start, front, s.root, s.record(), name) && s.target
                    == text::joined_bytes(s.mirror_dir(), encode_utf8(name));
            assert(item_named(start, replies, t.root, t.record(), name));
        }
        if s.phase is Pause && reply == ReplyView::Ready {
            lemma_in_vain(replies, s.tries as int);
        }
        if t.phase is Undo {
            assert(effects::happened(
                start,
                replies,
                ActionView::Rename { from: s.spot(), to: s.path },
                ReplyView::Wrote(Err(reply->Wrote_0->Err_0)),
            ));
        }
        if t.phase is Render {
            if s.phase is Mirror {
                assert(effects::happened(
                    start,
                    replies,
                    ActionView::MirrorItem { rec: s.record() },
                    ReplyView::Text(Err(reply->Text_0->Err_0)),
                ));
            } else if s.phase is Link {
                assert(effects::happened(
                    start,
                    replies,
                    ActionView::MakeLink { target: s.target, path: s.spot() },
                    ReplyView::Wrote(Err(reply->Wrote_0->Err_0)),
                ));
            } else if s.phase is Undo {
                let (from, to, m) = choose|from: Seq<char>, to: Seq<char>, m: Seq<char>| #[trigger]
                    effects::happened(
                        start,
                        front,
                        ActionView::Rename { from, to },
                        ReplyView::Wrote(Err(m)),
                    );
                assert(effects::happened(
                    start,
                    replies,
                    ActionView::Rename { from, to },
                    ReplyView::Wrote(Err(m)),
                ));
            }
            assert(needs_a_stub(start, replies));
        }
    }
}

/// What an offload moves over its file is the link that it has just made beside it, and that
/// link points at the file's own item in the mirror area: its target is the mirror area,
/// joined with the name that was answered for the file's record, and was seen there.
pub proof fn law_an_offloaded_file_links_to_its_item(
    path: Seq<char>,
    cfg: ConfigView,
    inplace: Seq<char>,
    fp_down: bool,
    replies: Seq<ReplyView>,
    from: Seq<char>,
    to: Seq<char>,
)
    requires
        effects::run(laws::offload_start(path, cfg, inplace, fp_down), replies).1 == StepView::<
            OffloadResultView,
        >::Ask(ActionView::Rename { from, to }),
    ensures
        to == path,
        replies.last() == ReplyView::Wrote(Ok(())),
        exists|root: Seq<u8>, rec: RecordView, name: Seq<char>|
            #[trigger] item_named(
                laws::offload_start(path, cfg, inplace, fp_down),
                replies,
                root,
                rec,
                name,
            ) && rec.path == path && ({
                let start = laws::offload_start(path, cfg, inplace, fp_down);
                let dir = text::joined_bytes(root, encode_utf8(inplace));
                let target = text::joined_bytes(dir, encode_utf8(name));
                &&& effects::run(start, replies.drop_last()).1 == StepView::<
                    OffloadResultView,
                >::Ask(ActionView::MakeLink { target, path: from })
                &&& effects::happened(
                    start,
                    replies,
                    ActionView::LookFor { dir, item: target },
                    ReplyView::Seen(true),
                )
            }),
{
    lemma_placing_known(path, cfg, inplace, fp_down, replies);
    let start = laws::offload_start(path, cfg, inplace, fp_down);
    let s = effects::run(start, replies).0;
    let name = choose|name: Seq<char>|
        #[trigger] item_named(start, replies, s.root, s.record(), name) && s.target
            == text::joined_bytes(s.mirror_dir(), encode_utf8(name));
    assert(item_named(start, replies, s.root, s.record(), name));
    assert(s.record().path == path);
}

/// A stub is the fixed mark `STOW1` and a line feed, then the description as JSON, then a line
/// feed; and what is described is the file itself: its path, the hash of the bytes that were
/// read, its size, and where in which bucket its content is.
pub proof fn law_a_stub_describes_the_file(
    path: Seq<char>,
    cfg: ConfigView,
    inplace: Seq<char>,
    fp_down: bool,
    replies: Seq<ReplyView>,
    to: Seq<char>,
    data: Seq<u8>,
)
    requires
        effects::run(laws::offload_start(path, cfg, inplace, fp_down), replies).1 == StepView::<
            OffloadResultView,
        >::Ask(ActionView::WriteFile { path: to, data }),
    ensures
        to == path,
        replies.len() > 5,
        replies.last() is Text,
        replies.last()->Text_0 is Ok,
        data == seq![83u8, 84u8, 79u8, 87u8, 49u8, 10u8] + encode_utf8(
            replies.last()->Text_0->Ok_0,
        ) + seq![10u8],
        replies[2] is File,
        replies[2]->File_0 is Ok,
        replies[3] is Meta,
        replies[3]->Meta_0 is Ok,
        effects::run(
            laws::offload_start(path, cfg, inplace, fp_down),
            replies.drop_last(),
        ).1 == StepView::<OffloadResultView>::Ask(
            ActionView::RenderStub {
                stub: StubView {
                    path,
                    hash: hash::blake3_hex(replies[2]->File_0->Ok_0),
                    size: replies[3]->Meta_0->Ok_0.size,
                    s3_key: cfg.prefix + hash::blake3_hex(replies[2]->File_0->Ok_0),
                    bucket: cfg.bucket,
                    region: cfg.region,
                },
            },
        ),
{
    lemma_placing_known(path, cfg, inplace, fp_down, replies);
    lemma_placing_known(path, cfg, inplace, fp_down, replies.drop_last());
}

/// A stub is written only where a link cannot be had: where the mirror area is known not to
/// respond or is not there, where it refuses the item or has not shown it in fifty looks, or
/// where no link could be put in the place of the file.
pub proof fn law_stubs_are_a_last_resort(
    path: Seq<char>,
    cfg: ConfigView,
    inplace: Seq<char>,
    fp_down: bool,
    replies: Seq<ReplyView>,
    stub: StubView,
)
    requires
        effects::run(laws::offload_start(path, cfg, inplace, fp_down), replies).1 == StepView::<
            OffloadResultView,
        >::Ask(ActionView::RenderStub { stub }),
    ensures
        needs_a_stub(laws::offload_start(path, cfg, inplace, fp_down), replies),
{
    lemma_placing_known(path, cfg, inplace, fp_down, replies);
}

/// Where the mirror area is known not to respond, it is left alone: no mount is looked for, no
/// item is made or waited for, and no link is made.
pub proof fn law_a_silent_mirror_area_is_left_alone(
    path: Seq<char>,
    cfg: ConfigView,
    inplace: Seq<char>,
    replies: Seq<ReplyView>,
    a: ActionView,
)
    requires
        effects::run(laws::offload_start(path, cfg, inplace, true), replies).1 == StepView::<
            OffloadResultView,
        >::Ask(a),
    ensures
        !(a is FindMount),
        !(a is MirrorItem),
        !(a is LookFor),
        !(a is Sleep),
        !(a is MakeLink),
        !(a is Rename),
{
    lemma_placing_known(path, cfg, inplace, true, replies);
}

/// What an offload reports is what it did: the path and the hash of the bytes that were read
/// there, the size of the file, the key of the content, whether the content was in the bucket
/// when it was first looked for, and whether a link or a stub was put in the place of the
/// file, which was the last thing it did.
pub proof fn law_an_offload_reports_what_it_did(
    path: Seq<char>,
    cfg: ConfigView,
    inplace: Seq<char>,
    fp_down: bool,
    replies: Seq<ReplyView>,
    res: OffloadResultView,
)
    requires
        effects::run(laws::offload_start(path, cfg, inplace, fp_down), replies).1 == StepView::<
            OffloadResultView,
        >::End(Ok(res)),
    ensures
        res.path == path,
        replies[2] is File,
        replies[2]->File_0 is Ok,
        res.hash == hash::blake3_hex(replies[2]->File_0->Ok_0),
        replies[3] is Meta,
        replies[3]->Meta_0 is Ok,
        res.bytes_freed == replies[3]->Meta_0->Ok_0.size,
        res.s3_key == cfg.prefix + res.hash,
        replies[4] == ReplyView::Found(Ok(res.deduped)),
        replies.last() == ReplyView::Wrote(Ok(())),
        effects::run(
            laws::offload_start(path, cfg, inplace, fp_down),
            replies.drop_last(),
        ).1 is Ask,
        ({
            let last = effects::run(
                laws::offload_start(path, cfg, inplace, fp_down),
                replies.drop_last(),
            ).1->Ask_0;
            if res.transparent {
                last is Rename && last->Rename_to == path
            } else {
                last is WriteFile && last->WriteFile_path == path
            }
        }),
{
    lemma_placing_known(path, cfg, inplace, fp_down, replies);
}

/// What is recorded of a file is what was found of it: its path, the hash of the bytes that
/// were read, its size, mode and modification time, the key of its content, and the time that
/// was read just before. It counts as offloaded.
pub proof fn law_a_record_says_what_was_found(
    path: Seq<char>,
    cfg: ConfigView,
    inplace: Seq<char>,
    fp_down: bool,
    replies: Seq<ReplyView>,
    rec: RecordView,
)
    requires
        effects::run(laws::offload_start(path, cfg, inplace, fp_down), replies).1 == StepView::<
            OffloadResultView,
        >::Ask(ActionView::SaveRecord { rec }),
    ensures
        rec.path == path,
        replies[2] is File,
        replies[2]->File_0 is Ok,
        rec.hash == hash::blake3_hex(replies[2]->File_0->Ok_0),
        replies[3] == ReplyView::Meta(
            Ok(Meta { size: rec.size, mode: rec.mode, mtime: rec.mtime }),
        ),
        rec.s3_key == cfg.prefix + rec.hash,
        replies.last() == ReplyView::Time(rec.offloaded_at),
        effects::run(
            laws::offload_start(path, cfg, inplace, fp_down),
            replies.drop_last(),
        ).1 == StepView::<OffloadResultView>::Ask(ActionView::Clock),
        !rec.restored,
{
    lemma_placing_known(path, cfg, inplace, fp_down, replies);
}

/// What cannot be offloaded is refused before anything is read: what is no regular file, what
/// is a placeholder already, and what is in the Stow folder.
pub proof fn law_some_files_are_refused(
    path: Seq<char>,
    cfg: ConfigView,
    inplace: Seq<char>,
    fp_down: bool,
    found: ProbeView,
)
    ensures
        ({
            let start = laws::offload_start(path, cfg, inplace, fp_down);
            let told = |replies: Seq<ReplyView>| effects::run(start, replies).1;
            let seen = seq![ReplyView::Kind(Ok(true)), ReplyView::Probed(found)];
            &&& told(seq![ReplyView::Kind(Ok(false))]) == StepView::<OffloadResultView>::End(
                Err(Fault::InvalidArg(path + " is not a regular file"@)),
            )
            &&& found.placeholder(inplace) == Ok::<bool, Fault>(true) ==> told(seen) == StepView::<
                OffloadResultView,
            >::End(Err(Fault::InvalidArg(path + " is already offloaded"@)))
            &&& found.placeholder(inplace) == Ok::<bool, Fault>(false) && paths::in_stow_folder(
                path,
            ) ==> told(seen) == StepView::<OffloadResultView>::End(
                Err(
                    Fault::InvalidArg(
                        path + " is inside the Stow folder — it's already offload-managed"@,
                    ),
                ),
            )
            &&& found.placeholder(inplace) == Ok::<bool, Fault>(false) && !paths::in_stow_folder(
                path,
            ) ==> told(seen) == StepView::<OffloadResultView>::Ask(ActionView::ReadFile { path })
        }),
{
    let start = laws::offload_start(path, cfg, inplace, fp_down);
    let one = seq![ReplyView::Kind(Ok(true))];
    let no = seq![ReplyView::Kind(Ok(false))];
    let seen = seq![ReplyView::Kind(Ok(true)), ReplyView::Probed(found)];
    assert(no.drop_last() =~= Seq::<ReplyView>::empty());
    assert(one.drop_last() =~= Seq::<ReplyView>::empty());
    assert(seen.drop_last() =~= one);
    assert(effects::run(start, Seq::<ReplyView>::empty()) == start);
    assert(effects::run(start, no) == start.0.respond(ReplyView::Kind(Ok(false))));
    assert(effects::run(start, one) == start.0.respond(ReplyView::Kind(Ok(true))));
    assert(effects::run(start, seen) == effects::run(start, one).0.respond(
        ReplyView::Probed(found),
    ));
}

/// That the mirror area does not respond is remembered, for the files that follow: it is so once
/// a stub had to do after the last pause, and by nothing else.
pub proof fn law_silence_is_remembered(
    path: Seq<char>,
    cfg: ConfigView,
    inplace: Seq<char>,
    fp_down: bool,
    replies: Seq<ReplyView>,
    reply: ReplyView,
)
    ensures
        ({
            let start = laws::offload_start(path, cfg, inplace, fp_down);
            let (before, asked) = effects::run(start, replies);
            let (after, step) = effects::run(start, replies.push(reply));
            let gave_up = asked is Ask && asked->Ask_0 is Sleep && step is Ask
                && step->Ask_0 is RenderStub;
            after.fp_down == (before.fp_down || gave_up)
        }),
        effects::run(laws::offload_start(path, cfg, inplace, fp_down), Seq::empty()).0.fp_down
            == fp_down,
{
    let start = laws::offload_start(path, cfg, inplace, fp_down);
    lemma_placing_known(path, cfg, inplace, fp_down, replies);
    let all = replies.push(reply);
    assert(all.drop_last() =~= replies);
    assert(all.last() == reply);
    let s = effects::run(start, replies).0;
    assert(effects::run(start, all) == s.respond(reply));
    assert(effects::run(start, Seq::<ReplyView>::empty()) == start);
}

/// A stub makes good what keeps a link from being put in the place of the file: where there is no
/// mount, the item is refused, or the link cannot be made, a stub is rendered next; where the
/// link cannot be moved, it is removed first.
#[verifier::spinoff_prover]
#[verifier::rlimit(40)]
pub proof fn law_a_stub_makes_good(
    path: Seq<char>,
    cfg: ConfigView,
    inplace: Seq<char>,
    fp_down: bool,
    replies: Seq<ReplyView>,
    e: Fault,
    m: Seq<char>,
    done: Result<(), Seq<char>>,
)
    requires
        effects::run(laws::offload_start(path, cfg, inplace, fp_down), replies).1 is Ask,
    ensures
        ({
            let start = laws::offload_start(path, cfg, inplace, fp_down);
            let a = effects::run(start, replies).1->Ask_0;
            let stub = |reply: ReplyView|
                effects::run(start, replies.push(reply)).1 is Ask && effects::run(
                    start,
                    replies.push(reply),
                ).1->Ask_0 is RenderStub;
            &&& a is SaveRecord && fp_down ==> stub(ReplyView::Done(Ok(())))
            &&& a is FindMount ==> stub(ReplyView::Mount(None))
            &&& a is MirrorItem ==> stub(ReplyView::Text(Err(e)))
            &&& a is MakeLink ==> stub(ReplyView::Wrote(Err(m)))
            &&& a is RemoveFile ==> stub(ReplyView::Wrote(done))
            &&& a is Rename ==> effects::run(start, replies.push(ReplyView::Wrote(Err(m)))).1
                == StepView::<OffloadResultView>::Ask(
                ActionView::RemoveFile { path: a->Rename_from },
            )
        }),
{
    let start = laws::offload_start(path, cfg, inplace, fp_down);
    lemma_placing_known(path, cfg, inplace, fp_down, replies);
    let s = effects::run(start, replies).0;
    assert forall|reply: ReplyView| #[trigger]
        effects::run(start, replies.push(reply)) == s.respond(reply) by {
        assert(replies.push(reply).drop_last() =~= replies);
        assert(replies.push(reply).last() == reply);
    }
    if replies.len() > 0 {
        let b = effects::run(start, replies.drop_last()).0;
        assert(effects::run(start, replies) == b.respond(replies.last()));
    }
}

/// Where nothing stands in the way, a link is put in the place of the file: each step that works
/// leads to the next, from the mount to the move.
#[verifier::spinoff_prover]
#[verifier::rlimit(40)]
pub proof fn law_a_link_is_put_where_nothing_is_in_the_way(
    path: Seq<char>,
    cfg: ConfigView,
    inplace: Seq<char>,
    fp_down: bool,
    replies: Seq<ReplyView>,
    root: Seq<u8>,
    name: Seq<char>,
)
    requires
        effects::run(laws::offload_start(path, cfg, inplace, fp_down), replies).1 is Ask,
    ensures
        ({
            let start = laws::offload_start(path, cfg, inplace, fp_down);
            let a = effects::run(start, replies).1->Ask_0;
            let told = |reply: ReplyView| effects::run(start, replies.push(reply)).1;
            &&& a is SaveRecord && !fp_down ==> told(ReplyView::Done(Ok(()))) == StepView::<
                OffloadResultView,
            >::Ask(ActionView::FindMount)
            &&& a is FindMount ==> told(ReplyView::Mount(Some(root))) is Ask && told(
                ReplyView::Mount(Some(root)),
            )->Ask_0 is MirrorItem
            &&& a is MirrorItem ==> told(ReplyView::Text(Ok(name))) == StepView::<
                OffloadResultView,
            >::Ask(ActionView::Signal)
            &&& a is Signal ==> told(ReplyView::Ready) is Ask && told(
                ReplyView::Ready,
            )->Ask_0 is LookFor
            &&& a is LookFor ==> told(ReplyView::Seen(true)) == StepView::<
                OffloadResultView,
            >::Ask(ActionView::LinkKind { path: paths::beside(path, 0) })
            &&& a is LinkKind ==> told(ReplyView::Link(LinkKind::Missing)) is Ask && told(
                ReplyView::Link(LinkKind::Missing),
            )->Ask_0 is MakeLink && told(
                ReplyView::Link(LinkKind::Missing),
            )->Ask_0->MakeLink_path == a->LinkKind_path
            &&& a is MakeLink ==> told(ReplyView::Wrote(Ok(()))) == StepView::<
                OffloadResultView,
            >::Ask(ActionView::Rename { from: a->MakeLink_path, to: path })
            &&& a is Rename ==> told(ReplyView::Wrote(Ok(()))) is End && told(
                ReplyView::Wrote(Ok(())),
            )->End_0 is Ok
        }),
{
    let start = laws::offload_start(path, cfg, inplace, fp_down);
    lemma_placing_known(path, cfg, inplace, fp_down, replies);
    let s = effects::run(start, replies).0;
    assert forall|reply: ReplyView| #[trigger]
        effects::run(start, replies.push(reply)) == s.respond(reply) by {
        assert(replies.push(reply).drop_last() =~= replies);
        assert(replies.push(reply).last() == reply);
    }
    if replies.len() > 0 {
        let b = effects::run(start, replies.drop_last()).0;
        assert(effects::run(start, replies) == b.respond(replies.last()));
    }
}

} // verus!

//! Laws of a restore, reply by reply: what is fetched, and what is cleared away before the
//! content is written.

use vstd::prelude::*;

use crate::config::ConfigView;
use crate::effects;
use crate::effects::{ActionView, LinkKind, ReplyView, StepView};
use crate::error::Fault;
use crate::hash;
use crate::index::RecordView;
use crate::laws;
use crate::restore::RestoreResultView;
use crate::s3::RemoteView;

verus! {

/// What is known of a restore before its content is written.
spec fn early_known(path: Seq<char>, cfg: ConfigView, replies: Seq<ReplyView>) -> bool {
    let start = laws::restore_start(path, cfg);
    let (s, step) = effects::run(start, replies);
    let ask = |a: ActionView| StepView::<RestoreResultView>::Ask(a);
    let asked = |k: int, a: ActionView| effects::run(start, replies.take(k)).1 == ask(a);
    let n = replies.len() as int;
    let fetched = s.phase is Kind || s.phase is Unlink || s.phase is Unmirror || s.phase is Signal
        || s.phase is Write;
    &&& s.path == path && s.cfg == cfg
    &&& s.phase is Record ==> n == 0
    &&& s.phase is Fetch || fetched ==> n >= 1 && replies[0] is Record && replies[0]->Record_0 is Ok
        && replies[0]->Record_0->Ok_0 is Some && s.hash == replies[0]->Record_0->Ok_0->0.hash && s.key
        == replies[0]->Record_0->Ok_0->0.s3_key
    &&& s.phase is Fetch ==> n == 1 && step == ask(
        ActionView::GetObject { at: cfg.remote(), key: s.key },
    )
    &&& fetched ==> n >= 2 && replies[1] is Object && replies[1]->Object_0 is Ok
        && hash::blake3_hex(replies[1]->Object_0->Ok_0) == s.hash
    &&& fetched && !(s.phase is Write) ==> s.data == replies[1]->Object_0->Ok_0
    &&& s.phase is Kind ==> n == 2 && step == ask(ActionView::LinkKind { path })
    &&& s.phase is Unlink ==> n == 3 && replies[2] == ReplyView::Link(LinkKind::Link) && step == ask(
        ActionView::RemoveFile { path },
    )
    &&& s.phase is Unmirror ==> n == 4 && replies[2] == ReplyView::Link(LinkKind::Link)
        && replies[3] == ReplyView::Wrote(Ok(())) && asked(3, ActionView::RemoveFile { path }) && step
        == ask(ActionView::RemoveMirror { path })
    &&& s.phase is Signal ==> n == 5 && replies[2] == ReplyView::Link(LinkKind::Link) && replies[3]
        == ReplyView::Wrote(Ok(())) && asked(3, ActionView::RemoveFile { path }) && asked(
        4,
        ActionView::RemoveMirror { path },
    ) && step == ask(ActionView::Signal)
    &&& s.phase is Write ==> {
        &&& step == ask(ActionView::WriteFile { path, data: replies[1]->Object_0->Ok_0 })
        &&& replies[2] is Link
        &&& replies[2] != ReplyView::Link(LinkKind::Link) ==> n == 3
        &&& replies[2] == ReplyView::Link(LinkKind::Link) ==> n == 6 && replies[3]
            == ReplyView::Wrote(Ok(())) && asked(3, ActionView::RemoveFile { path }) && asked(
            4,
            ActionView::RemoveMirror { path },
        ) && asked(5, ActionView::Signal)
    }
    &&& s.phase is Over <==> step is End
    &&& step matches StepView::Ask(a) ==> {
        &&& a is GetObject ==> s.phase is Fetch
        &&& a is RemoveFile ==> s.phase is Unlink
        &&& a is RemoveMirror ==> s.phase is Unmirror
        &&& a is WriteFile ==> s.phase is Write
    }
}

#[verifier::spinoff_prover]
#[verifier::rlimit(100)]
proof fn lemma_early_known(path: Seq<char>, cfg: ConfigView, replies: Seq<ReplyView>)
    ensures
        early_known(path, cfg, replies),
    decreases replies.len(),
{
    let start = laws::restore_start(path, cfg);
    if replies.len() > 0 {
        let front = replies.drop_last();
        let reply = replies.last();
        lemma_early_known(path, cfg, front);
        let (s, step) = effects::run(start, front);
        let (t, next) = s.respond(reply);
        assert(effects::run(start, replies) == (t, next));
        assert forall|k: int| 0 <= k < replies.len() implies #[trigger] replies.take(k)
            == front.take(k) by {
            assert(replies.take(k) =~= front.take(k));
        }
        assert forall|k: int| 0 <= k < front.len() implies #[trigger] replies[k] == front[k] by {}
        assert(front.take(front.len() as int) =~= front);
        if reply is Wrote && reply->Wrote_0 is Ok {
            assert(reply->Wrote_0->Ok_0 == ());
        }
    }
}

/// What is fetched for a file is the object of its record, once.
pub proof fn law_a_restore_fetches_the_recorded_object(
    path: Seq<char>,
    cfg: ConfigView,
    replies: Seq<ReplyView>,
    at: RemoteView,
    key: Seq<char>,
)
    requires
        effects::run(laws::restore_start(path, cfg), replies).1 == StepView::<
            RestoreResultView,
        >::Ask(ActionView::GetObject { at, key }),
    ensures
        at == cfg.remote(),
        replies.len() == 1,
        replies[0] is Record,
        replies[0]->Record_0 is Ok,
        replies[0]->Record_0->Ok_0 is Some,
        key == replies[0]->Record_0->Ok_0->0.s3_key,
{
    lemma_early_known(path, cfg, replies);
}

/// Before the content is written, a link that stands in its place is cleared away: the link is
/// removed, then the item in the mirror area, and the agent is told. Where there is no link,
/// the content is written at once. What is written is what was fetched, and has the recorded
/// hash.
pub proof fn law_links_give_way_to_the_content(
    path: Seq<char>,
    cfg: ConfigView,
    replies: Seq<ReplyView>,
    to: Seq<char>,
    data: Seq<u8>,
)
    requires
        effects::run(laws::restore_start(path, cfg), replies).1 == StepView::<
            RestoreResultView,
        >::Ask(ActionView::WriteFile { path: to, data }),
    ensures
        to == path,
        replies[1] == ReplyView::Object(Ok(data)),
        replies[0] is Record,
        replies[0]->Record_0 is Ok,
        replies[0]->Record_0->Ok_0 is Some,
        hash::blake3_hex(data) == replies[0]->Record_0->Ok_0->0.hash,
        replies[2] is Link,
        replies[2] != ReplyView::Link(LinkKind::Link) ==> replies.len() == 3,
        replies[2] == ReplyView::Link(LinkKind::Link) ==> ({
            let start = laws::restore_start(path, cfg);
            let asked = |k: int, a: ActionView|
                effects::run(start, replies.take(k)).1 == StepView::<RestoreResultView>::Ask(a);
            &&& replies.len() == 6
            &&& asked(3, ActionView::RemoveFile { path })
            &&& replies[3] == ReplyView::Wrote(Ok(()))
            &&& asked(4, ActionView::RemoveMirror { path })
            &&& asked(5, ActionView::Signal)
        }),
{
    lemma_early_known(path, cfg, replies);
}

/// A restore removes nothing but a link in the place of the file, and no item but that of the
/// file, after the link is gone.
pub proof fn law_a_restore_removes_only_the_link(
    path: Seq<char>,
    cfg: ConfigView,
    replies: Seq<ReplyView>,
    a: ActionView,
)
    requires
        effects::run(laws::restore_start(path, cfg), replies).1 == StepView::<
            RestoreResultView,
        >::Ask(a),
    ensures
        a matches ActionView::RemoveFile { path: p } ==> p == path && replies.last()
            == ReplyView::Link(LinkKind::Link),
        a matches ActionView::RemoveMirror { path: p } ==> p == path && replies.last()
            == ReplyView::Wrote(Ok(())),
{
    lemma_early_known(path, cfg, replies);
}

/// Content that does not have the recorded hash is refused as damaged, whatever it is, with the
/// two hashes; and a path without a record is not found.
pub proof fn law_damaged_content_is_refused(
    path: Seq<char>,
    cfg: ConfigView,
    rec: RecordView,
    data: Seq<u8>,
)
    ensures
        ({
            let start = laws::restore_start(path, cfg);
            let got = seq![ReplyView::Record(Ok(Some(rec))), ReplyView::Object(Ok(data))];
            let step = effects::run(start, got).1;
            if hash::blake3_hex(data) == rec.hash {
                step == StepView::<RestoreResultView>::Ask(ActionView::LinkKind { path })
            } else {
                step == StepView::<RestoreResultView>::End(
                    Err(
                        Fault::Integrity(
                            path + ": hash mismatch (expected "@ + rec.hash + ", got "@
                                + hash::blake3_hex(data) + ")"@,
                        ),
                    ),
                )
            }
        }),
        effects::run(
            laws::restore_start(path, cfg),
            seq![ReplyView::Record(Ok(None))],
        ).1 == StepView::<RestoreResultView>::End(
            Err(Fault::NotFound(path + " is not tracked by Stow"@)),
        ),
{
    let start = laws::restore_start(path, cfg);
    let none = Seq::<ReplyView>::empty();
    let one = seq![ReplyView::Record(Ok(Some(rec)))];
    let no = seq![ReplyView::Record(Ok(None))];
    let got = seq![ReplyView::Record(Ok(Some(rec))), ReplyView::Object(Ok(data))];
    assert(one.drop_last() =~= none);
    assert(no.drop_last() =~= none);
    assert(got.drop_last() =~= one);
    assert(effects::run(start, none) == start);
    assert(effects::run(start, one) == start.0.respond(ReplyView::Record(Ok(Some(rec)))));
    assert(effects::run(start, no) == start.0.respond(ReplyView::Record(Ok(None))));
    assert(effects::run(start, got) == effects::run(start, one).0.respond(
        ReplyView::Object(Ok(data)),
    ));
    let got_hash = hash::blake3_hex(data);
    assert(path + ": hash mismatch (expected "@ + rec.hash + (", got "@ + got_hash + ")"@) =~= path
        + ": hash mismatch (expected "@ + rec.hash + ", got "@ + got_hash + ")"@);
}

} // verus!

//! Laws of the links that stand in the place of offloaded files: which item of the mirror
//! area each one points at.

use vstd::prelude::*;
use vstd::utf8::encode_utf8;

use crate::effects;
use crate::effects::{ActionView, LinkKind, ReplyView, StepView};
use crate::error::Fault;
use crate::index::RecordView;
use crate::laws;
use crate::migrate::{AutoFailureView, MigrateResultView, MigrateView};
use crate::paths;
use crate::placing;
use crate::text;

verus! {

// ---- migrating ----------------------------------------------------------------------

/// Whether a migration was told where the Stow folder is mounted, that an offloaded file has a
/// certain record, and by what name the item of that record goes in the mirror area.
pub open spec fn item_named(
    start: (MigrateView, StepView<MigrateResultView>),
    replies: Seq<ReplyView>,
    root: Seq<u8>,
    rec: RecordView,
    name: Seq<char>,
) -> bool {
    &&& effects::happened(start, replies, ActionView::FindMount, ReplyView::Mount(Some(root)))
    &&& effects::happened(
        start,
        replies,
        ActionView::MirrorItem { rec },
        ReplyView::Text(Ok(name)),
    )
    &&& exists|records: Seq<RecordView>|
        #[trigger] effects::happened(
            start,
            replies,
            ActionView::LoadRecords,
            ReplyView::Records(Ok(records)),
        ) && records.contains(rec)
}

/// Whether a target is the item, in the mirror area, of the record that has a path.
pub open spec fn is_item_of(
    start: (MigrateView, StepView<MigrateResultView>),
    replies: Seq<ReplyView>,
    path: Seq<char>,
    dir: Seq<u8>,
    target: Seq<u8>,
) -> bool {
    exists|root: Seq<u8>, rec: RecordView, name: Seq<char>|
        #[trigger] item_named(start, replies, root, rec, name) && rec.path == path && dir
            == text::joined_bytes(root, encode_utf8(start.0.inplace)) && target
            == text::joined_bytes(dir, encode_utf8(name))
}

proof fn lemma_item_grows(
    start: (MigrateView, StepView<MigrateResultView>),
    replies: Seq<ReplyView>,
)
    requires
        replies.len() > 0,
    ensures
        forall|path: Seq<char>, dir: Seq<u8>, target: Seq<u8>|
            is_item_of(start, replies.drop_last(), path, dir, target) ==> #[trigger] is_item_of(
                start,
                replies,
                path,
                dir,
                target,
            ),
{
    let front = replies.drop_last();
    effects::lemma_happened(start, replies);
    assert forall|path: Seq<char>, dir: Seq<u8>, target: Seq<u8>|
        is_item_of(start, front, path, dir, target) implies #[trigger] is_item_of(
        start,
        replies,
        path,
        dir,
        target,
    ) by {
        let (root, rec, name) = choose|root: Seq<u8>, rec: RecordView, name: Seq<char>|
            #[trigger] item_named(start, front, root, rec, name) && rec.path == path && dir
                == text::joined_bytes(root, encode_utf8(start.0.inplace)) && target
                == text::joined_bytes(dir, encode_utf8(name));
        lemma_named_grows(start, replies, root, rec, name);
    }
}

proof fn lemma_named_grows(
    start: (MigrateView, StepView<MigrateResultView>),
    replies: Seq<ReplyView>,
    root: Seq<u8>,
    rec: RecordView,
    name: Seq<char>,
)
    requires
        replies.len() > 0,
        item_named(start, replies.drop_last(), root, rec, name),
    ensures
        item_named(start, replies, root, rec, name),
{
    let front = replies.drop_last();
    effects::lemma_happened(start, replies);
    let records = choose|records: Seq<RecordView>|
        #[trigger] effects::happened(
            start,
            front,
            ActionView::LoadRecords,
            ReplyView::Records(Ok(records)),
        ) && records.contains(rec);
    assert(effects::happened(
        start,
        replies,
        ActionView::LoadRecords,
        ReplyView::Records(Ok(records)),
    ));
}

/// Whether a reason why a file was not migrated is one that the migration was given, or one of
/// its own.
pub open spec fn is_reason(
    start: (MigrateView, StepView<MigrateResultView>),
    replies: Seq<ReplyView>,
    f: AutoFailureView,
) -> bool {
    ||| exists|rec: RecordView, e: Fault|
        #[trigger] effects::happened(
            start,
            replies,
            ActionView::MirrorItem { rec },
            ReplyView::Text(Err(e)),
        ) && rec.path == f.path && f.error == e.text()
    ||| f.error == "mirror never appeared in the Stow folder"@
    ||| f.error == "there is no free name for a link"@
    ||| exists|n: u32, target: Seq<u8>|
        #[trigger] effects::happened(
            start,
            replies,
            ActionView::MakeLink { target, path: paths::beside(f.path, n) },
            ReplyView::Wrote(Err(f.error)),
        )
    ||| exists|n: u32|
        #[trigger] effects::happened(
            start,
            replies,
            ActionView::Rename { from: paths::beside(f.path, n), to: f.path },
            ReplyView::Wrote(Err(f.error)),
        )
}

proof fn lemma_reason_grows(
    start: (MigrateView, StepView<MigrateResultView>),
    replies: Seq<ReplyView>,
    f: AutoFailureView,
)
    requires
        replies.len() > 0,
        is_reason(start, replies.drop_last(), f),
    ensures
        is_reason(start, replies, f),
{
    let front = replies.drop_last();
    effects::lemma_happened(start, replies);
    if exists|rec: RecordView, e: Fault|
        #[trigger] effects::happened(
            start,
            front,
            ActionView::MirrorItem { rec },
            ReplyView::Text(Err(e)),
        ) && rec.path == f.path && f.error == e.text() {
        let (rec, e) = choose|rec: RecordView, e: Fault|
            #[trigger] effects::happened(
                start,
                front,
                ActionView::MirrorItem { rec },
                ReplyView::Text(Err(e)),
            ) && rec.path == f.path && f.error == e.text();
        assert(effects::happened(
            start,
            replies,
            ActionView::MirrorItem { rec },
            ReplyView::Text(Err(e)),
        ));
    } else if exists|n: u32, target: Seq<u8>|
        #[trigger] effects::happened(
            start,
            front,
            ActionView::MakeLink { target, path: paths::beside(f.path, n) },
            ReplyView::Wrote(Err(f.error)),
        ) {
        let (n, target) = choose|n: u32, target: Seq<u8>|
            #[trigger] effects::happened(
                start,
                front,
                ActionView::MakeLink { target, path: paths::beside(f.path, n) },
                ReplyView::Wrote(Err(f.error)),
            );
        assert(effects::happened(
            start,
            replies,
            ActionView::MakeLink { target, path: paths::beside(f.path, n) },
            ReplyView::Wrote(Err(f.error)),
        ));
    } else if exists|n: u32|
        #[trigger] effects::happened(
            start,
            front,
            ActionView::Rename { from: paths::beside(f.path, n), to: f.path },
            ReplyView::Wrote(Err(f.error)),
        ) {
        let n = choose|n: u32|
            #[trigger] effects::happened(
                start,
                front,
                ActionView::Rename { from: paths::beside(f.path, n), to: f.path },
                ReplyView::Wrote(Err(f.error)),
            );
        assert(effects::happened(
            start,
            replies,
            ActionView::Rename { from: paths::beside(f.path, n), to: f.path },
            ReplyView::Wrote(Err(f.error)),
        ));
    }
}

/// The stub that a migration deals with.
spec fn path_of(s: MigrateView) -> Seq<char> {
    s.swaps[s.done as int].path
}

/// What the link in its place is to point at.
spec fn target_of(s: MigrateView) -> Seq<u8> {
    s.swaps[s.done as int].target
}

spec fn is_swapping(s: MigrateView) -> bool {
    ||| s.phase is Free
    ||| s.phase is Link
    ||| s.phase is Put
    ||| s.phase is Undo
}

spec fn is_begun(s: MigrateView) -> bool {
    ||| s.phase is Kind
    ||| s.phase is Probe
    ||| s.phase is Mirror
    ||| s.phase is Signal
    ||| s.phase is Look
    ||| s.phase is Pause
    ||| is_swapping(s)
}

/// What a migration asks for in each phase.
spec fn asks(s: MigrateView, step: StepView<MigrateResultView>) -> bool {
    let ask = |a: ActionView| StepView::<MigrateResultView>::Ask(a);
    &&& s.phase is Mount ==> step == ask(ActionView::FindMount)
    &&& s.phase is Records ==> step == ask(ActionView::LoadRecords)
    &&& s.phase is Kind ==> step == ask(ActionView::LinkKind { path: s.records[s.at as int].path })
    &&& s.phase is Probe ==> step == ask(ActionView::Probe { path: s.records[s.at as int].path })
    &&& s.phase is Mirror ==> step == ask(ActionView::MirrorItem { rec: s.records[s.at as int] })
    &&& s.phase is Look ==> step == ask(
        ActionView::LookFor { dir: s.mirror_dir(), item: target_of(s) },
    )
    &&& s.phase is Pause ==> step == ask(ActionView::Sleep { millis: 200 })
    &&& s.phase is Free ==> step == ask(ActionView::LinkKind { path: s.spot() })
    &&& s.phase is Link ==> step == ask(
        ActionView::MakeLink { target: target_of(s), path: s.spot() },
    )
    &&& s.phase is Put ==> step == ask(ActionView::Rename { from: s.spot(), to: path_of(s) })
    &&& s.phase is Undo ==> step == ask(ActionView::RemoveFile { path: s.spot() })
    &&& s.phase is Over <==> step is End
    &&& step matches StepView::Ask(a) ==> {
        &&& a is Probe ==> s.phase is Probe
        &&& a is MirrorItem ==> s.phase is Mirror
        &&& a is MakeLink ==> s.phase is Link
        &&& a is Rename ==> s.phase is Put
        &&& a is Sleep ==> s.phase is Pause
        &&& a is LookFor ==> s.phase is Look
    }
    &&& step matches StepView::End(Ok(res)) ==> res.failures == s.failures && res.migrated
        == s.migrated
}

#[verifier::spinoff_prover]
#[verifier::rlimit(40)]
proof fn lemma_asks(s: MigrateView, reply: ReplyView)
    requires
        s.wf(),
    ensures
        s.respond(reply).0.wf(),
        asks(s.respond(reply).0, s.respond(reply).1),
        s.respond(reply).0.inplace == s.inplace,
{
}

/// What is known of the links of a migration.
spec fn links_known(
    start: (MigrateView, StepView<MigrateResultView>),
    replies: Seq<ReplyView>,
) -> bool {
    let (s, step) = effects::run(start, replies);
    let past_mount = is_begun(s) || s.phase is Index || s.phase is Store || s.phase is Records;
    &&& s.wf()
    &&& s.inplace == start.0.inplace
    &&& asks(s, step)
    &&& past_mount ==> effects::happened(
        start,
        replies,
        ActionView::FindMount,
        ReplyView::Mount(Some(s.root)),
    )
    &&& is_begun(s) ==> effects::happened(
        start,
        replies,
        ActionView::LoadRecords,
        ReplyView::Records(Ok(s.records)),
    )
    &&& is_begun(s) ==> forall|k: int|
        0 <= k < s.swaps.len() ==> is_item_of(
            start,
            replies,
            (#[trigger] s.swaps[k]).path,
            s.mirror_dir(),
            s.swaps[k].target,
        )
    &&& is_swapping(s) ==> effects::happened(
        start,
        replies,
        ActionView::LookFor { dir: s.mirror_dir(), item: target_of(s) },
        ReplyView::Seen(true),
    )
    &&& s.phase is Link ==> replies.len() > 0 && replies.last() == ReplyView::Link(
        LinkKind::Missing,
    ) && effects::run(start, replies.drop_last()).1 == StepView::<MigrateResultView>::Ask(
        ActionView::LinkKind { path: s.spot() },
    )
    &&& s.phase is Put ==> replies.len() > 0 && replies.last() == ReplyView::Wrote(Ok(()))
        && effects::run(start, replies.drop_last()).1 == StepView::<MigrateResultView>::Ask(
        ActionView::MakeLink { target: target_of(s), path: s.spot() },
    )
    &&& s.phase is Undo ==> effects::happened(
        start,
        replies,
        ActionView::Rename { from: s.spot(), to: path_of(s) },
        ReplyView::Wrote(Err(s.why)),
    )
    &&& s.phase is Look ==> placing::looked_in_vain(replies, s.tries as int) && s.tries < 50
    &&& s.phase is Pause ==> replies.len() > 0 && replies.last() == ReplyView::Seen(false)
        && placing::looked_in_vain(replies.drop_last(), s.tries as int) && s.tries < 50
    &&& is_begun(s) || s.phase is Over ==> forall|k: int|
        0 <= k < s.failures.len() ==> is_reason(start, replies, #[trigger] s.failures[k])
}

/// What one reply does to the lists of a migration.
#[verifier::spinoff_prover]
#[verifier::rlimit(40)]
proof fn lemma_lists(s: MigrateView, reply: ReplyView)
    requires
        s.wf(),
    ensures
        ({
            let t = s.respond(reply).0;
            &&& t.swaps == s.swaps || (s.phase is Mirror && reply is Text && reply->Text_0 is Ok
                && t.swaps.len() == s.swaps.len() + 1 && t.swaps.drop_last() == s.swaps
                && t.swaps.last().path == s.records[s.at as int].path && t.swaps.last().target
                == text::joined_bytes(s.mirror_dir(), encode_utf8(reply->Text_0->Ok_0)))
            &&& t.failures == s.failures || {
                &&& t.failures.len() == s.failures.len() + 1
                &&& t.failures.drop_last() == s.failures
                &&& {
                    let f = t.failures.last();
                    ||| s.phase is Mirror && reply is Text && reply->Text_0 is Err && f.path
                        == s.records[s.at as int].path && f.error == reply->Text_0->Err_0.text()
                    ||| s.phase is Pause && f.path == path_of(s) && f.error
                        == "mirror never appeared in the Stow folder"@
                    ||| s.phase is Free && f.path == path_of(s) && f.error
                        == "there is no free name for a link"@
                    ||| s.phase is Link && f.path == path_of(s) && reply == ReplyView::Wrote(
                        Err(f.error),
                    )
                    ||| s.phase is Undo && f.path == path_of(s) && f.error == s.why
                }
            }
            &&& is_begun(t) && is_begun(s) ==> t.root == s.root && t.records == s.records
            &&& is_begun(t) && !is_begun(s) ==> s.phase is Records && t.root == s.root
                && t.swaps.len() == 0 && t.failures.len() == 0 && reply == ReplyView::Records(
                Ok(t.records),
            )
            &&& is_swapping(t) && !is_swapping(s) ==> s.phase is Look && reply == ReplyView::Seen(
                true,
            ) && t.done == s.done
            &&& is_swapping(t) && is_swapping(s) ==> t.done == s.done
            &&& t.phase is Link ==> s.phase is Free && reply == ReplyView::Link(LinkKind::Missing)
                && t.tries == s.tries
            &&& t.phase is Put ==> s.phase is Link && reply is Wrote && reply->Wrote_0 is Ok
                && t.tries == s.tries
            &&& t.phase is Undo ==> s.phase is Put && reply == ReplyView::Wrote(Err(t.why))
                && t.tries == s.tries
            &&& t.phase is Look ==> t.tries == 0 || (s.phase is Pause && reply == ReplyView::Ready
                && t.tries == s.tries + 1 && t.tries < 50)
            &&& t.phase is Pause ==> s.phase is Look && reply == ReplyView::Seen(false) && t.tries
                == s.tries
            &&& t.phase is Index ==> s.phase is Mount && reply == ReplyView::Mount(Some(t.root))
            &&& t.phase is Store ==> s.phase is Index && t.root == s.root
            &&& t.phase is Records ==> s.phase is Store && t.root == s.root
        }),
{
    let t = s.respond(reply).0;
    if t.swaps != s.swaps {
        assert(t.swaps.drop_last() =~= s.swaps);
    }
    if t.failures != s.failures {
        assert(t.failures.drop_last() =~= s.failures);
    }
}

#[verifier::spinoff_prover]
#[verifier::rlimit(100)]
proof fn lemma_links_known(inplace: Seq<char>, replies: Seq<ReplyView>)
    ensures
        links_known(laws::migrate_start(inplace), replies),
    decreases replies.len(),
{
    let start = laws::migrate_start(inplace);
    if replies.len() > 0 {
        let front = replies.drop_last();
        let reply = replies.last();
        lemma_links_known(inplace, front);
        effects::lemma_happened(start, replies);
        lemma_item_grows(start, replies);
        let (s, step) = effects::run(start, front);
        let (t, next) = s.respond(reply);
        assert(effects::run(start, replies) == (t, next));
        lemma_asks(s, reply);
        lemma_lists(s, reply);
        if t.phase is Put {
            assert(reply->Wrote_0->Ok_0 == ());
        }
        if s.phase is Pause && reply == ReplyView::Ready {
            placing::lemma_in_vain(replies, s.tries as int);
        }
        if is_begun(t) {
            assert forall|k: int| 0 <= k < t.swaps.len() implies is_item_of(
                start,
                replies,
                (#[trigger] t.swaps[k]).path,
                t.mirror_dir(),
                t.swaps[k].target,
            ) by {
                if k < s.swaps.len() {
                    assert(t.swaps.drop_last()[k] == t.swaps[k] || t.swaps == s.swaps);
                    assert(t.swaps[k] == s.swaps[k]);
                    assert(is_item_of(
                        start,
                        front,
                        s.swaps[k].path,
                        s.mirror_dir(),
                        s.swaps[k].target,
                    ));
                } else {
                    let rec = s.records[s.at as int];
                    assert(s.records.contains(rec));
                    let name = reply->Text_0->Ok_0;
                    assert(reply == ReplyView::Text(Ok(name)));
                    assert(effects::happened(
                        start,
                        replies,
                        ActionView::LoadRecords,
                        ReplyView::Records(Ok(s.records)),
                    ));
                    assert(effects::happened(
                        start,
                        replies,
                        ActionView::MirrorItem { rec },
                        ReplyView::Text(Ok(name)),
                    ));
                    assert(effects::happened(
                        start,
                        replies,
                        ActionView::FindMount,
                        ReplyView::Mount(Some(s.root)),
                    ));
                    assert(item_named(start, replies, s.root, rec, name));
                }
            }
        }
        if is_begun(t) || t.phase is Over {
            assert forall|k: int| 0 <= k < t.failures.len() implies is_reason(
                start,
                replies,
                #[trigger] t.failures[k],
            ) by {
                if k < s.failures.len() {
                    assert(t.failures.drop_last()[k] == t.failures[k] || t.failures == s.failures);
                    assert(t.failures[k] == s.failures[k]);
                    lemma_reason_grows(start, replies, s.failures[k]);
                } else {
                    let f = t.failures.last();
                    if s.phase is Mirror {
                        assert(effects::happened(
                            start,
                            replies,
                            ActionView::MirrorItem { rec: s.records[s.at as int] },
                            ReplyView::Text(Err(reply->Text_0->Err_0)),
                        ));
                    } else if s.phase is Link {
                        assert(effects::happened(
                            start,
                            replies,
                            ActionView::MakeLink {
                                target: target_of(s),
                                path: paths::beside(f.path, s.tries),
                            },
                            ReplyView::Wrote(Err(f.error)),
                        ));
                    } else if s.phase is Undo {
                        assert(effects::happened(
                            start,
                            replies,
                            ActionView::Rename {
                                from: paths::beside(f.path, s.tries),
                                to: f.path,
                            },
                            ReplyView::Wrote(Err(f.error)),
                        ));
                    }
                }
            }
        }
    }
}

/// A link that a migration makes beside a file points at the item of just that file: its
/// target is the mirror area, joined with the name that was answered for the record of the
/// file. The item was seen there before, and the name of the link was free.
pub proof fn law_a_migrated_link_points_at_its_item(
    inplace: Seq<char>,
    replies: Seq<ReplyView>,
    target: Seq<u8>,
    spot: Seq<char>,
)
    requires
        effects::run(laws::migrate_start(inplace), replies).1 == StepView::<
            MigrateResultView,
        >::Ask(ActionView::MakeLink { target, path: spot }),
    ensures
        replies.last() == ReplyView::Link(LinkKind::Missing),
        effects::run(laws::migrate_start(inplace), replies.drop_last()).1 == StepView::<
            MigrateResultView,
        >::Ask(ActionView::LinkKind { path: spot }),
        exists|root: Seq<u8>, rec: RecordView, name: Seq<char>|
            #[trigger] item_named(laws::migrate_start(inplace), replies, root, rec, name) && (
            exists|n: u32| spot == #[trigger] paths::beside(rec.path, n)) && target
                == text::joined_bytes(
                text::joined_bytes(root, encode_utf8(inplace)),
                encode_utf8(name),
            ) && effects::happened(
                laws::migrate_start(inplace),
                replies,
                ActionView::LookFor {
                    dir: text::joined_bytes(root, encode_utf8(inplace)),
                    item: target,
                },
                ReplyView::Seen(true),
            ),
{
    let start = laws::migrate_start(inplace);
    lemma_links_known(inplace, replies);
    let s = effects::run(start, replies).0;
    let path = path_of(s);
    let dir = s.mirror_dir();
    assert(is_item_of(start, replies, path, dir, s.swaps[s.done as int].target));
    let (root, rec, name) = choose|root: Seq<u8>, rec: RecordView, name: Seq<char>|
        #[trigger] item_named(start, replies, root, rec, name) && rec.path == path && dir
            == text::joined_bytes(root, encode_utf8(start.0.inplace)) && target
            == text::joined_bytes(dir, encode_utf8(name));
    assert(item_named(start, replies, root, rec, name));
    assert(spot == paths::beside(rec.path, s.tries));
}

/// What a migration moves over a file is the link that it has just made, and that link points
/// at the item of that very file, of which it was answered the name, and which was seen.
pub proof fn law_each_file_gets_the_link_to_its_own_item(
    inplace: Seq<char>,
    replies: Seq<ReplyView>,
    from: Seq<char>,
    to: Seq<char>,
)
    requires
        effects::run(laws::migrate_start(inplace), replies).1 == StepView::<
            MigrateResultView,
        >::Ask(ActionView::Rename { from, to }),
    ensures
        replies.last() == ReplyView::Wrote(Ok(())),
        exists|root: Seq<u8>, rec: RecordView, name: Seq<char>|
            #[trigger] item_named(laws::migrate_start(inplace), replies, root, rec, name)
                && rec.path == to && ({
                let dir = text::joined_bytes(root, encode_utf8(inplace));
                let target = text::joined_bytes(dir, encode_utf8(name));
                &&& effects::run(laws::migrate_start(inplace), replies.drop_last()).1 == StepView::<
                    MigrateResultView,
                >::Ask(ActionView::MakeLink { target, path: from })
                &&& effects::happened(
                    laws::migrate_start(inplace),
                    replies,
                    ActionView::LookFor { dir, item: target },
                    ReplyView::Seen(true),
                )
            }),
{
    let start = laws::migrate_start(inplace);
    lemma_links_known(inplace, replies);
    let s = effects::run(start, replies).0;
    let dir = s.mirror_dir();
    let target = s.swaps[s.done as int].target;
    assert(is_item_of(start, replies, path_of(s), dir, target));
    let (root, rec, name) = choose|root: Seq<u8>, rec: RecordView, name: Seq<char>|
        #[trigger] item_named(start, replies, root, rec, name) && rec.path == to && dir
            == text::joined_bytes(root, encode_utf8(start.0.inplace)) && target
            == text::joined_bytes(dir, encode_utf8(name));
    assert(item_named(start, replies, root, rec, name));
}

/// A migration passes over no stub: where a file of the index is found to be no link and a
/// placeholder, the item of that file is asked for next; everything else is left alone and
/// counted.
pub proof fn law_every_stub_is_migrated(
    inplace: Seq<char>,
    replies: Seq<ReplyView>,
    path: Seq<char>,
    found: crate::placeholder::ProbeView,
)
    requires
        effects::run(laws::migrate_start(inplace), replies).1 == StepView::<
            MigrateResultView,
        >::Ask(ActionView::Probe { path }),
    ensures
        ({
            let start = laws::migrate_start(inplace);
            let before = effects::run(start, replies).0;
            let (after, step) = effects::run(start, replies.push(ReplyView::Probed(found)));
            if found.placeholder(inplace) == Ok::<bool, Fault>(true) {
                &&& step is Ask
                &&& step->Ask_0 is MirrorItem
                &&& step->Ask_0->MirrorItem_rec.path == path
                &&& after.skipped == before.skipped
            } else {
                after.skipped == before.skipped + 1
            }
        }),
{
    let start = laws::migrate_start(inplace);
    lemma_links_known(inplace, replies);
    let all = replies.push(ReplyView::Probed(found));
    assert(all.drop_last() =~= replies);
    assert(all.last() == ReplyView::Probed(found));
    assert(effects::run(start, all) == effects::run(start, replies).0.respond(
        ReplyView::Probed(found),
    ));
}

/// A file of the index that is a link already, or is gone, is left alone and counted; any other
/// is looked at more closely.
pub proof fn law_links_are_left_alone(inplace: Seq<char>, replies: Seq<ReplyView>, kind: LinkKind)
    requires
        effects::run(laws::migrate_start(inplace), replies).0.phase is Kind,
    ensures
        ({
            let start = laws::migrate_start(inplace);
            let (before, asked) = effects::run(start, replies);
            let (after, step) = effects::run(start, replies.push(ReplyView::Link(kind)));
            &&& asked is Ask
            &&& asked->Ask_0 is LinkKind
            &&& if kind is Other {
                &&& step == StepView::<MigrateResultView>::Ask(
                    ActionView::Probe { path: asked->Ask_0->LinkKind_path },
                )
                &&& after.skipped == before.skipped
            } else {
                after.skipped == before.skipped + 1
            }
        }),
{
    let start = laws::migrate_start(inplace);
    lemma_links_known(inplace, replies);
    let all = replies.push(ReplyView::Link(kind));
    assert(all.drop_last() =~= replies);
    assert(all.last() == ReplyView::Link(kind));
    assert(effects::run(start, all) == effects::run(start, replies).0.respond(
        ReplyView::Link(kind),
    ));
}

/// An item is looked for fifty times, a fifth of a second apart, before its file is given up:
/// after each pause but the fiftieth the same item is looked for again.
pub proof fn law_items_are_looked_for_fifty_times(
    inplace: Seq<char>,
    replies: Seq<ReplyView>,
    millis: u64,
)
    requires
        effects::run(laws::migrate_start(inplace), replies).1 == StepView::<
            MigrateResultView,
        >::Ask(ActionView::Sleep { millis }),
    ensures
        millis == 200,
        replies.last() == ReplyView::Seen(false),
        ({
            let start = laws::migrate_start(inplace);
            let after = replies.push(ReplyView::Ready);
            let looked = effects::run(start, replies.drop_last()).1;
            ||| effects::run(start, after).1 == looked && looked is Ask && looked->Ask_0 is LookFor
            ||| placing::looked_in_vain(after, 50)
        }),
{
    let start = laws::migrate_start(inplace);
    lemma_links_known(inplace, replies);
    lemma_links_known(inplace, replies.drop_last());
    let after = replies.push(ReplyView::Ready);
    assert(after.drop_last() =~= replies);
    assert(after.last() == ReplyView::Ready);
    let s = effects::run(start, replies).0;
    let b = effects::run(start, replies.drop_last()).0;
    assert(effects::run(start, replies) == b.respond(replies.last()));
    assert(effects::run(start, after) == s.respond(ReplyView::Ready));
    lemma_lists(b, replies.last());
    if s.tries + 1 >= 50 {
        assert(s.tries == 49);
        placing::lemma_in_vain(after, 49);
    }
}

/// Of every file that a migration fails on, it says why: with the error that it was answered
/// for the item, the link or the move, or that the item did not show up or no name was free.
pub proof fn law_failed_migrations_give_their_reason(
    inplace: Seq<char>,
    replies: Seq<ReplyView>,
    res: MigrateResultView,
    k: int,
)
    requires
        effects::run(laws::migrate_start(inplace), replies).1 == StepView::<
            MigrateResultView,
        >::End(Ok(res)),
        0 <= k < res.failures.len(),
    ensures
        is_reason(laws::migrate_start(inplace), replies, res.failures[k]),
{
    lemma_links_known(inplace, replies);
}

/// Where nothing stands in the way, each stub is replaced: every step that works leads to the
/// next, and a move that worked puts the file on the list of those that were migrated.
#[verifier::spinoff_prover]
#[verifier::rlimit(60)]
pub proof fn law_stubs_are_replaced_where_nothing_is_in_the_way(
    inplace: Seq<char>,
    replies: Seq<ReplyView>,
    root: Seq<u8>,
    records: Seq<RecordView>,
    name: Seq<char>,
)
    requires
        effects::run(laws::migrate_start(inplace), replies).1 is Ask,
    ensures
        ({
            let start = laws::migrate_start(inplace);
            let (s, asked) = effects::run(start, replies);
            let a = asked->Ask_0;
            let told = |reply: ReplyView| effects::run(start, replies.push(reply)).1;
            let after = |reply: ReplyView| effects::run(start, replies.push(reply)).0;
            let ask = |x: ActionView| StepView::<MigrateResultView>::Ask(x);
            &&& a is FindMount ==> told(ReplyView::Mount(Some(root))) == ask(ActionView::OpenIndex)
            &&& a is OpenIndex ==> told(ReplyView::Done(Ok(()))) == ask(ActionView::OpenStore)
            &&& a is OpenStore ==> told(ReplyView::Done(Ok(()))) == ask(ActionView::LoadRecords)
            &&& a is LoadRecords && records.len() > 0 ==> told(ReplyView::Records(Ok(records)))
                == ask(ActionView::LinkKind { path: records[0].path })
            &&& a is LoadRecords && records.len() == 0 ==> told(ReplyView::Records(Ok(records)))
                == ask(ActionView::Signal)
            &&& a is MirrorItem && s.at + 1 < s.records.len() ==> told(
                ReplyView::Text(Ok(name)),
            ) == ask(ActionView::LinkKind { path: s.records[s.at as int + 1].path })
            &&& a is MirrorItem && s.at + 1 == s.records.len() ==> told(
                ReplyView::Text(Ok(name)),
            ) == ask(ActionView::Signal)
            &&& a is LookFor ==> told(ReplyView::Seen(true)) == ask(
                ActionView::LinkKind { path: paths::beside(s.swaps[s.done as int].path, 0) },
            )
            &&& s.phase is Free ==> told(ReplyView::Link(LinkKind::Missing)) is Ask && told(
                ReplyView::Link(LinkKind::Missing),
            )->Ask_0 is MakeLink
            &&& a is MakeLink ==> told(ReplyView::Wrote(Ok(()))) is Ask && told(
                ReplyView::Wrote(Ok(())),
            )->Ask_0 is Rename && told(ReplyView::Wrote(Ok(())))->Ask_0->Rename_from
                == a->MakeLink_path
            &&& a is Rename ==> after(ReplyView::Wrote(Ok(()))).migrated == s.migrated.push(
                a->Rename_to,
            ) && after(ReplyView::Wrote(Ok(()))).failures == s.failures
        }),
{
    let start = laws::migrate_start(inplace);
    lemma_links_known(inplace, replies);
    let s = effects::run(start, replies).0;
    assert forall|reply: ReplyView| #[trigger]
        effects::run(start, replies.push(reply)) == s.respond(reply) by {
        assert(replies.push(reply).drop_last() =~= replies);
        assert(replies.push(reply).last() == reply);
    }
    if replies.len() > 0 {
        let b = effects::run(start, replies.drop_last()).0;
        assert(effects::run(start, replies) == b.respond(replies.last()));
    }
}

} // verus!

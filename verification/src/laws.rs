//! Laws of every run of a flow, whatever the host answers and however it fails.

use vstd::prelude::*;

use crate::config::ConfigView;
use crate::effects;
use crate::effects::{ActionView, Flow, Meta, ReplyView, StepView};
use crate::error::Fault;
use crate::folder;
use crate::folder::{FetchView, UpdatePhase, UpdateView};
use crate::hash;
use crate::index::RecordView;
use crate::init::{InitPhase, InitResultView, InitView};
use crate::migrate::{AutoFailureView, MigrateResultView, MigrateView};
use crate::offload::{OffloadPhase, OffloadResultView, OffloadView};
use crate::paths;
use crate::provider::ItemView;
use crate::restore::{RestorePhase, RestoreResultView, RestoreView};
use crate::s3;
use crate::share::{SharePhase, ShareResultView, ShareView, UnsharePhase, UnshareView};

verus! {

// ---- offloading ---------------------------------------------------------------------

/// An offload at its start.
pub open spec fn offload_start(
    path: Seq<char>,
    cfg: ConfigView,
    inplace: Seq<char>,
    fp_down: bool,
) -> (OffloadView, StepView<OffloadResultView>) {
    (
        OffloadView::fresh(path, cfg, inplace, fp_down),
        StepView::Ask(ActionView::StatFile { path }),
    )
}

/// Whether an action changes what is at a path.
pub open spec fn touches(a: ActionView, path: Seq<char>) -> bool {
    match a {
        ActionView::WriteFile { path: p, data } => p == path,
        ActionView::RemoveFile { path: p } => p == path,
        ActionView::MakeLink { target, path: p } => p == path,
        ActionView::Rename { from, to } => from == path || to == path,
        _ => false,
    }
}

/// Whether a flow has made a link at a path.
pub open spec fn link_made<F: Flow>(
    start: (F, StepView<F::Out>),
    replies: Seq<ReplyView>,
    path: Seq<char>,
) -> bool {
    exists|target: Seq<u8>| #[trigger]
        effects::happened(
            start,
            replies,
            ActionView::MakeLink { target, path },
            ReplyView::Wrote(Ok(())),
        )
}

/// Whether the bytes of the file were read and are known to be in the bucket.
pub open spec fn content_secured(
    start: (OffloadView, StepView<OffloadResultView>),
    replies: Seq<ReplyView>,
    data: Seq<u8>,
) -> bool {
    let path = start.0.path;
    let at = start.0.cfg.remote();
    let key = start.0.cfg.key_for(hash::blake3_hex(data));
    &&& effects::happened(
        start,
        replies,
        ActionView::ReadFile { path },
        ReplyView::File(Ok(data)),
    )
    &&& {
        ||| effects::happened(
            start,
            replies,
            ActionView::HeadObject { at, key },
            ReplyView::Found(Ok(true)),
        )
        ||| effects::happened(
            start,
            replies,
            ActionView::StoreObject { at, key, data },
            ReplyView::Done(Ok(())),
        )
    }
}

/// Whether the file was recorded in the index, under the hash and key of its content.
pub open spec fn recorded(
    start: (OffloadView, StepView<OffloadResultView>),
    replies: Seq<ReplyView>,
    data: Seq<u8>,
    rec: RecordView,
) -> bool {
    &&& rec.path == start.0.path
    &&& rec.hash == hash::blake3_hex(data)
    &&& rec.s3_key == start.0.cfg.key_for(rec.hash)
    &&& effects::happened(
        start,
        replies,
        ActionView::SaveRecord { rec },
        ReplyView::Done(Ok(())),
    )
}

/// What is known of an offload in each phase.
spec fn offload_sound(
    start: (OffloadView, StepView<OffloadResultView>),
    replies: Seq<ReplyView>,
) -> bool {
    let (s, step) = effects::run(start, replies);
    let path = start.0.path;
    let at = start.0.cfg.remote();
    let named = s.hash == hash::blake3_hex(s.data) && s.key == s.cfg.key_for(s.hash);
    let has_read = effects::happened(
        start,
        replies,
        ActionView::ReadFile { path },
        ReplyView::File(Ok(s.data)),
    );
    &&& s.path == path
    &&& s.cfg == start.0.cfg
    &&& match s.phase {
        OffloadPhase::Kind => step == StepView::<OffloadResultView>::Ask(
            ActionView::StatFile { path },
        ),
        OffloadPhase::Probe => step == StepView::<OffloadResultView>::Ask(
            ActionView::Probe { path },
        ),
        OffloadPhase::Read => step == StepView::<OffloadResultView>::Ask(
            ActionView::ReadFile { path },
        ),
        OffloadPhase::Meta => has_read && step == StepView::<OffloadResultView>::Ask(
            ActionView::StatMeta { path },
        ),
        OffloadPhase::Known | OffloadPhase::Head => has_read && named && step == StepView::<
            OffloadResultView,
        >::Ask(ActionView::HeadObject { at, key: s.key }),
        OffloadPhase::Store => exists|data: Seq<u8>|
            {
                &&& #[trigger] effects::happened(
                    start,
                    replies,
                    ActionView::ReadFile { path },
                    ReplyView::File(Ok(data)),
                )
                &&& s.hash == hash::blake3_hex(data)
                &&& s.key == s.cfg.key_for(s.hash)
                &&& step == StepView::<OffloadResultView>::Ask(
                    ActionView::StoreObject { at, key: s.key, data },
                )
                &&& effects::happened(
                    start,
                    replies,
                    ActionView::HeadObject { at, key: s.key },
                    ReplyView::Found(Ok(false)),
                )
            },
        OffloadPhase::Time => exists|data: Seq<u8>|
            {
                &&& #[trigger] content_secured(start, replies, data)
                &&& s.hash == hash::blake3_hex(data)
                &&& s.key == s.cfg.key_for(s.hash)
                &&& step == StepView::<OffloadResultView>::Ask(ActionView::Clock)
            },
        OffloadPhase::Save => exists|data: Seq<u8>|
            {
                &&& #[trigger] content_secured(start, replies, data)
                &&& s.hash == hash::blake3_hex(data)
                &&& s.key == s.cfg.key_for(s.hash)
                &&& step == StepView::<OffloadResultView>::Ask(
                    ActionView::SaveRecord { rec: s.record() },
                )
            },
        OffloadPhase::Over => !(step is Ask),
        _ => exists|data: Seq<u8>, rec: RecordView|
            content_secured(start, replies, data) && #[trigger] recorded(start, replies, data, rec),
    }
}

proof fn lemma_secured_grows(
    start: (OffloadView, StepView<OffloadResultView>),
    replies: Seq<ReplyView>,
)
    requires
        replies.len() > 0,
    ensures
        forall|data: Seq<u8>|
            content_secured(start, replies.drop_last(), data) ==> #[trigger] content_secured(
                start,
                replies,
                data,
            ),
        forall|data: Seq<u8>, rec: RecordView|
            recorded(start, replies.drop_last(), data, rec) ==> #[trigger] recorded(
                start,
                replies,
                data,
                rec,
            ),
{
    effects::lemma_happened(start, replies);
}

#[verifier::spinoff_prover]
#[verifier::rlimit(60)]
proof fn lemma_offload_sound(
    path: Seq<char>,
    cfg: ConfigView,
    inplace: Seq<char>,
    fp_down: bool,
    replies: Seq<ReplyView>,
)
    ensures
        offload_sound(offload_start(path, cfg, inplace, fp_down), replies),
    decreases replies.len(),
{
    let start = offload_start(path, cfg, inplace, fp_down);
    if replies.len() > 0 {
        let front = replies.drop_last();
        let reply = replies.last();
        lemma_offload_sound(path, cfg, inplace, fp_down, front);
        effects::lemma_happened(start, replies);
        lemma_secured_grows(start, replies);
        let (s, step) = effects::run(start, front);
        let (t, next) = s.respond(reply);
        assert(effects::run(start, replies) == (t, next));
        match s.phase {
            OffloadPhase::Head => {
                if t.phase is Time {
                    assert(content_secured(start, replies, s.data));
                } else if t.phase is Store {
                    assert(effects::happened(
                        start,
                        replies,
                        ActionView::ReadFile { path },
                        ReplyView::File(Ok(s.data)),
                    ));
                }
            },
            OffloadPhase::Store => {
                if t.phase is Time {
                    let data = choose|data: Seq<u8>|
                        {
                            &&& #[trigger] effects::happened(
                                start,
                                front,
                                ActionView::ReadFile { path },
                                ReplyView::File(Ok(data)),
                            )
                            &&& s.hash == hash::blake3_hex(data)
                            &&& s.key == s.cfg.key_for(s.hash)
                            &&& step == StepView::<OffloadResultView>::Ask(
                                ActionView::StoreObject { at: cfg.remote(), key: s.key, data },
                            )
                        };
                    assert(reply->Done_0->Ok_0 == ());
                    assert(effects::happened(
                        start,
                        replies,
                        ActionView::StoreObject { at: cfg.remote(), key: s.key, data },
                        ReplyView::Done(Ok(())),
                    ));
                    assert(content_secured(start, replies, data));
                }
            },
            OffloadPhase::Time => {
                let data = choose|data: Seq<u8>|
                    {
                        &&& #[trigger] content_secured(start, front, data)
                        &&& s.hash == hash::blake3_hex(data)
                        &&& s.key == s.cfg.key_for(s.hash)
                    };
                assert(content_secured(start, replies, data));
            },
            OffloadPhase::Save => {
                let data = choose|data: Seq<u8>|
                    {
                        &&& #[trigger] content_secured(start, front, data)
                        &&& s.hash == hash::blake3_hex(data)
                        &&& s.key == s.cfg.key_for(s.hash)
                    };
                assert(content_secured(start, replies, data));
                if !(t.phase is Over) {
                    assert(reply->Done_0->Ok_0 == ());
                    assert(effects::happened(
                        start,
                        replies,
                        ActionView::SaveRecord { rec: s.record() },
                        ReplyView::Done(Ok(())),
                    ));
                    assert(recorded(start, replies, data, s.record()));
                }
            },
            OffloadPhase::Kind
            | OffloadPhase::Probe
            | OffloadPhase::Read
            | OffloadPhase::Meta
            | OffloadPhase::Known
            | OffloadPhase::Over => {},
            _ => {
                let (data, rec) = choose|data: Seq<u8>, rec: RecordView|
                    content_secured(start, front, data) && #[trigger] recorded(
                        start,
                        front,
                        data,
                        rec,
                    );
                assert(content_secured(start, replies, data));
                assert(recorded(start, replies, data, rec));
            },
        }
    }
}

/// A file is never lost: before an offload changes anything at the path, the content is
/// known to be in the bucket and the file is recorded in the index, under the hash and
/// the key of that content.
pub proof fn law_content_is_secured_before_a_file_is_replaced(
    path: Seq<char>,
    cfg: ConfigView,
    inplace: Seq<char>,
    fp_down: bool,
    replies: Seq<ReplyView>,
    a: ActionView,
)
    requires
        effects::run(offload_start(path, cfg, inplace, fp_down), replies).1 == StepView::<
            OffloadResultView,
        >::Ask(a),
        touches(a, path),
    ensures
        exists|data: Seq<u8>, rec: RecordView|
            content_secured(offload_start(path, cfg, inplace, fp_down), replies, data)
                && #[trigger] recorded(
                offload_start(path, cfg, inplace, fp_down),
                replies,
                data,
                rec,
            ),
{
    lemma_offload_sound(path, cfg, inplace, fp_down, replies);
}

/// Whether an action changes a file or the index.
pub open spec fn changes_files_or_index(a: ActionView) -> bool {
    ||| a is WriteFile
    ||| a is RemoveFile
    ||| a is MakeLink
    ||| a is Rename
    ||| a is SetMode
    ||| a is SetTimes
    ||| a is SaveRecord
    ||| a is MarkRestored
}

/// Whether a reply says that a request to the bucket has failed.
pub open spec fn is_failure(reply: ReplyView) -> bool {
    match reply {
        ReplyView::Found(r) => r is Err,
        ReplyView::Done(r) => r is Err,
        _ => false,
    }
}

/// Whether an offload asks, after `i` replies, for a request to the bucket that fails.
pub open spec fn upload_fails_at(
    start: (OffloadView, StepView<OffloadResultView>),
    replies: Seq<ReplyView>,
    i: int,
) -> bool {
    &&& 0 <= i < replies.len()
    &&& effects::run(start, replies.take(i)).1 matches StepView::Ask(a) && (a is HeadObject
        || a is StoreObject)
    &&& is_failure(replies[i])
}

/// Whether an offload has changed no file and nothing in the index, and asks for no such
/// thing.
pub open spec fn all_as_before(
    start: (OffloadView, StepView<OffloadResultView>),
    replies: Seq<ReplyView>,
) -> bool {
    forall|i: int|
        0 <= i <= replies.len() ==> !(#[trigger] effects::run(start, replies.take(i)).1 matches
            StepView::Ask(a) && changes_files_or_index(a))
}

/// Whether an offload has not got past its upload.
spec fn is_early(phase: OffloadPhase) -> bool {
    phase is Kind || phase is Probe || phase is Read || phase is Meta || phase is Known
        || phase is Head || phase is Store || phase is Time
}

proof fn lemma_early_step(s: OffloadView, reply: ReplyView)
    ensures
        ({
            let (t, next) = s.respond(reply);
            &&& next matches StepView::Ask(a) ==> (a is HeadObject || a is StoreObject
                ==> t.phase is Known || t.phase is Head || t.phase is Store)
            &&& is_early(t.phase) ==> is_early(s.phase) && !(next matches StepView::Ask(a)
                && changes_files_or_index(a))
            &&& s.phase is Over ==> t.phase is Over && next is End && next->End_0 is Err
            &&& is_failure(reply) && (s.phase is Known || s.phase is Head || s.phase is Store)
                ==> t.phase is Over && next is End && next->End_0 is Err
        }),
{
}

/// What holds of an offload that has not got past its upload, and of one whose upload has
/// failed.
spec fn early_sound(
    start: (OffloadView, StepView<OffloadResultView>),
    replies: Seq<ReplyView>,
) -> bool {
    let (s, step) = effects::run(start, replies);
    &&& step matches StepView::Ask(a) ==> (a is HeadObject || a is StoreObject
        ==> s.phase is Known || s.phase is Head || s.phase is Store)
    &&& is_early(s.phase) ==> all_as_before(start, replies)
    &&& forall|i: int| #[trigger]
        upload_fails_at(start, replies, i) ==> {
            &&& s.phase is Over
            &&& step matches StepView::End(r) && r is Err
            &&& all_as_before(start, replies)
        }
}

proof fn lemma_as_before_grows(
    start: (OffloadView, StepView<OffloadResultView>),
    replies: Seq<ReplyView>,
)
    requires
        replies.len() > 0,
        all_as_before(start, replies.drop_last()),
        !(effects::run(start, replies).1 matches StepView::Ask(a) && changes_files_or_index(a)),
    ensures
        all_as_before(start, replies),
{
    let front = replies.drop_last();
    assert forall|i: int| 0 <= i <= replies.len() implies !(
    #[trigger] effects::run(start, replies.take(i)).1 matches StepView::Ask(a)
        && changes_files_or_index(a)) by {
        if i <= front.len() {
            assert(replies.take(i) =~= front.take(i));
        } else {
            assert(replies.take(i) =~= replies);
        }
    }
}

proof fn lemma_early_sound(
    path: Seq<char>,
    cfg: ConfigView,
    inplace: Seq<char>,
    fp_down: bool,
    replies: Seq<ReplyView>,
)
    ensures
        early_sound(offload_start(path, cfg, inplace, fp_down), replies),
    decreases replies.len(),
{
    let start = offload_start(path, cfg, inplace, fp_down);
    if replies.len() == 0 {
        assert(replies.take(0) =~= replies);
    } else {
        let front = replies.drop_last();
        lemma_early_sound(path, cfg, inplace, fp_down, front);
        let (s, step) = effects::run(start, front);
        lemma_early_step(s, replies.last());
        let (t, next) = effects::run(start, replies);
        assert((t, next) == s.respond(replies.last()));
        if is_early(t.phase) {
            lemma_as_before_grows(start, replies);
        }
        assert forall|i: int| #[trigger] upload_fails_at(start, replies, i) implies {
            &&& t.phase is Over
            &&& next matches StepView::End(r) && r is Err
            &&& all_as_before(start, replies)
        } by {
            if i < front.len() {
                assert(replies.take(i) =~= front.take(i));
                assert(upload_fails_at(start, front, i));
            } else {
                assert(replies.take(i) =~= front);
            }
            lemma_as_before_grows(start, replies);
        }
    }
}

/// An upload that fails changes nothing: where any request to the bucket fails, the
/// offload ends, and from its beginning to its end no file is changed and nothing in the
/// index.
pub proof fn law_a_failed_upload_changes_nothing(
    path: Seq<char>,
    cfg: ConfigView,
    inplace: Seq<char>,
    fp_down: bool,
    replies: Seq<ReplyView>,
    i: int,
)
    requires
        upload_fails_at(offload_start(path, cfg, inplace, fp_down), replies, i),
    ensures
        effects::run(offload_start(path, cfg, inplace, fp_down), replies).1 matches StepView::End(
            r,
        ) && r is Err,
        all_as_before(offload_start(path, cfg, inplace, fp_down), replies),
{
    lemma_early_sound(path, cfg, inplace, fp_down, replies);
}

/// Whether the file was recorded with the hash and key of the content that was read and
/// secured, and with the size, mode and modification time that were found.
pub open spec fn saved_as(
    start: (OffloadView, StepView<OffloadResultView>),
    replies: Seq<ReplyView>,
    data: Seq<u8>,
    m: Meta,
    rec: RecordView,
) -> bool {
    &&& content_secured(start, replies, data)
    &&& effects::happened(
        start,
        replies,
        ActionView::StatMeta { path: start.0.path },
        ReplyView::Meta(Ok(m)),
    )
    &&& recorded(start, replies, data, rec)
    &&& rec.size == m.size
    &&& rec.mode == m.mode
    &&& rec.mtime == m.mtime
    &&& !rec.restored
}

/// Whether what an offload knows of its file is what was read and found.
spec fn knows(
    start: (OffloadView, StepView<OffloadResultView>),
    replies: Seq<ReplyView>,
    data: Seq<u8>,
    m: Meta,
) -> bool {
    let (s, step) = effects::run(start, replies);
    &&& effects::happened(
        start,
        replies,
        ActionView::ReadFile { path: start.0.path },
        ReplyView::File(Ok(data)),
    )
    &&& effects::happened(
        start,
        replies,
        ActionView::StatMeta { path: start.0.path },
        ReplyView::Meta(Ok(m)),
    )
    &&& s.path == start.0.path
    &&& s.cfg == start.0.cfg
    &&& s.hash == hash::blake3_hex(data)
    &&& s.key == s.cfg.key_for(s.hash)
    &&& s.size == m.size
    &&& s.mode == m.mode
    &&& s.mtime == m.mtime
    &&& s.phase is Known || s.phase is Head ==> s.data == data
    &&& s.phase is Store ==> step == StepView::<OffloadResultView>::Ask(
        ActionView::StoreObject { at: s.cfg.remote(), key: s.key, data },
    )
    &&& !(s.phase is Known || s.phase is Head || s.phase is Store) ==> content_secured(
        start,
        replies,
        data,
    )
    &&& is_placing(s.phase) ==> effects::happened(
        start,
        replies,
        ActionView::SaveRecord { rec: s.record() },
        ReplyView::Done(Ok(())),
    )
}

/// Whether an offload is past its record.
spec fn is_placing(phase: OffloadPhase) -> bool {
    !is_early(phase) && !(phase is Save) && !(phase is Over)
}

/// What an offload asks for in some of its phases.
spec fn offload_asks(s: OffloadView, step: StepView<OffloadResultView>) -> bool {
    let ask = |a: ActionView| StepView::<OffloadResultView>::Ask(a);
    &&& s.phase is Meta ==> step == ask(ActionView::StatMeta { path: s.path })
    &&& s.phase is Head ==> step == ask(
        ActionView::HeadObject { at: s.cfg.remote(), key: s.key },
    )
    &&& s.phase is Save ==> step == ask(ActionView::SaveRecord { rec: s.record() })
    &&& s.phase is Link ==> step == ask(
        ActionView::MakeLink { target: s.target, path: s.spot() },
    )
    &&& s.phase is Put ==> step == ask(ActionView::Rename { from: s.spot(), to: s.path })
    &&& s.phase is Undo ==> step == ask(ActionView::RemoveFile { path: s.spot() })
    &&& step matches StepView::Ask(a) ==> {
        &&& a is SaveRecord ==> s.phase is Save
        &&& a is MakeLink ==> s.phase is Link
        &&& a is Rename ==> s.phase is Put
        &&& a is RemoveFile ==> s.phase is Undo
        &&& a matches ActionView::WriteFile { path, data } ==> path == s.path
    }
}

proof fn lemma_offload_asks(s: OffloadView, reply: ReplyView)
    ensures
        offload_asks(s.respond(reply).0, s.respond(reply).1),
{
}

/// What is known of the file of an offload, and of the link that is to replace it.
spec fn file_sound(
    start: (OffloadView, StepView<OffloadResultView>),
    replies: Seq<ReplyView>,
) -> bool {
    let (s, step) = effects::run(start, replies);
    &&& offload_asks(s, step)
    &&& has_read(s.phase) ==> exists|data: Seq<u8>, m: Meta| #[trigger] knows(start, replies, data, m)
    &&& s.phase is Put || s.phase is Undo ==> link_made(start, replies, s.spot())
    &&& step matches StepView::End(Ok(res)) ==> exists|data: Seq<u8>, m: Meta, rec: RecordView|
        #[trigger] saved_as(start, replies, data, m, rec) && is_result_of(res, rec)
}

/// Whether an outcome tells what was recorded.
pub open spec fn is_result_of(res: OffloadResultView, rec: RecordView) -> bool {
    &&& res.path == rec.path
    &&& res.hash == rec.hash
    &&& res.s3_key == rec.s3_key
    &&& res.bytes_freed == rec.size
}

proof fn lemma_link_made_grows<F: Flow>(start: (F, StepView<F::Out>), replies: Seq<ReplyView>)
    requires
        replies.len() > 0,
    ensures
        forall|path: Seq<char>|
            link_made(start, replies.drop_last(), path) ==> #[trigger] link_made(
                start,
                replies,
                path,
            ),
{
    effects::lemma_happened(start, replies);
    assert forall|path: Seq<char>|
        link_made(start, replies.drop_last(), path) implies #[trigger] link_made(
        start,
        replies,
        path,
    ) by {
        let target = choose|target: Seq<u8>| #[trigger]
            effects::happened(
                start,
                replies.drop_last(),
                ActionView::MakeLink { target, path },
                ReplyView::Wrote(Ok(())),
            );
        assert(effects::happened(
            start,
            replies,
            ActionView::MakeLink { target, path },
            ReplyView::Wrote(Ok(())),
        ));
    }
}

/// Whether an offload has read its file and has not ended.
spec fn has_read(phase: OffloadPhase) -> bool {
    !(phase is Kind || phase is Probe || phase is Read || phase is Meta || phase is Over)
}

/// What an offload knows of its file stays so, or is recorded at the end.
#[verifier::spinoff_prover]
#[verifier::rlimit(60)]
proof fn lemma_knows_on(
    start: (OffloadView, StepView<OffloadResultView>),
    replies: Seq<ReplyView>,
    data: Seq<u8>,
    m: Meta,
)
    requires
        replies.len() > 0,
        has_read(effects::run(start, replies.drop_last()).0.phase),
        offload_asks(
            effects::run(start, replies.drop_last()).0,
            effects::run(start, replies.drop_last()).1,
        ),
        knows(start, replies.drop_last(), data, m),
    ensures
        ({
            let (t, next) = effects::run(start, replies);
            &&& !(t.phase is Over) ==> has_read(t.phase) && knows(start, replies, data, m)
            &&& next matches StepView::End(Ok(res)) ==> exists|rec: RecordView|
                #[trigger] saved_as(start, replies, data, m, rec) && is_result_of(res, rec)
        }),
{
    let front = replies.drop_last();
    let reply = replies.last();
    let (s, step) = effects::run(start, front);
    let (t, next) = s.respond(reply);
    assert(effects::run(start, replies) == (t, next));
    effects::lemma_happened(start, replies);
    lemma_secured_grows(start, replies);
    if (s.phase is Store || s.phase is Save) && !(t.phase is Over) {
        assert(reply->Done_0->Ok_0 == ());
    }
    if s.phase is Head && t.phase is Time {
        assert(content_secured(start, replies, data));
    }
    if s.phase is Store && t.phase is Time {
        assert(content_secured(start, replies, data));
    }
    if s.phase is Save || is_placing(s.phase) {
        assert(t.record() == s.record());
    }
    if is_placing(s.phase) {
        let rec = s.record();
        assert(effects::happened(
            start,
            replies,
            ActionView::SaveRecord { rec },
            ReplyView::Done(Ok(())),
        ));
        assert(recorded(start, replies, data, rec));
        assert(saved_as(start, replies, data, m, rec));
    }
}

#[verifier::spinoff_prover]
#[verifier::rlimit(60)]
proof fn lemma_file_sound(
    path: Seq<char>,
    cfg: ConfigView,
    inplace: Seq<char>,
    fp_down: bool,
    replies: Seq<ReplyView>,
)
    ensures
        file_sound(offload_start(path, cfg, inplace, fp_down), replies),
    decreases replies.len(),
{
    let start = offload_start(path, cfg, inplace, fp_down);
    if replies.len() > 0 {
        let front = replies.drop_last();
        let reply = replies.last();
        lemma_file_sound(path, cfg, inplace, fp_down, front);
        lemma_offload_sound(path, cfg, inplace, fp_down, front);
        effects::lemma_happened(start, replies);
        lemma_link_made_grows(start, replies);
        let (s, step) = effects::run(start, front);
        let (t, next) = s.respond(reply);
        assert(effects::run(start, replies) == (t, next));
        lemma_offload_asks(s, reply);
        if has_read(s.phase) {
            let (data, m) = choose|data: Seq<u8>, m: Meta| #[trigger] knows(start, front, data, m);
            lemma_knows_on(start, replies, data, m);
            if t.phase is Put {
                assert(s.phase is Link);
                assert(reply->Wrote_0->Ok_0 == ());
                assert(t.spot() == s.spot());
                assert(effects::happened(
                    start,
                    replies,
                    ActionView::MakeLink { target: s.target, path: s.spot() },
                    ReplyView::Wrote(Ok(())),
                ));
                assert(link_made(start, replies, t.spot()));
            } else if t.phase is Undo {
                assert(s.phase is Put);
                assert(t.spot() == s.spot());
            }
        } else if s.phase is Meta && t.phase is Known {
            let m = reply->Meta_0->Ok_0;
            assert(effects::happened(
                start,
                replies,
                ActionView::StatMeta { path },
                ReplyView::Meta(Ok(m)),
            ));
            assert(knows(start, replies, s.data, m));
        }
    }
}

/// An offload that succeeds, whatever failed on its way, has recorded the file: with the hash
/// and key of the bytes that were read and are known to be in the bucket, and with the size,
/// mode and modification time that were found. Its outcome tells the same.
pub proof fn law_an_offload_records_the_file(
    path: Seq<char>,
    cfg: ConfigView,
    inplace: Seq<char>,
    fp_down: bool,
    replies: Seq<ReplyView>,
    res: OffloadResultView,
)
    requires
        effects::run(offload_start(path, cfg, inplace, fp_down), replies).1 == StepView::<
            OffloadResultView,
        >::End(Ok(res)),
    ensures
        exists|data: Seq<u8>, m: Meta, rec: RecordView|
            #[trigger] saved_as(
                offload_start(path, cfg, inplace, fp_down),
                replies,
                data,
                m,
                rec,
            ) && is_result_of(res, rec),
{
    lemma_file_sound(path, cfg, inplace, fp_down, replies);
}

/// Whatever an offload records is what it read and found.
proof fn lemma_saved(
    path: Seq<char>,
    cfg: ConfigView,
    inplace: Seq<char>,
    fp_down: bool,
    replies: Seq<ReplyView>,
    rec: RecordView,
)
    requires
        effects::happened(
            offload_start(path, cfg, inplace, fp_down),
            replies,
            ActionView::SaveRecord { rec },
            ReplyView::Done(Ok(())),
        ),
    ensures
        exists|data: Seq<u8>, m: Meta|
            #[trigger] saved_as(
                offload_start(path, cfg, inplace, fp_down),
                replies,
                data,
                m,
                rec,
            ),
    decreases replies.len(),
{
    let start = offload_start(path, cfg, inplace, fp_down);
    let front = replies.drop_last();
    let done = ReplyView::Done(Ok(()));
    effects::lemma_happened_last(start, replies, ActionView::SaveRecord { rec }, done);
    effects::lemma_happened(start, replies);
    lemma_secured_grows(start, replies);
    if effects::happened(start, front, ActionView::SaveRecord { rec }, done) {
        lemma_saved(path, cfg, inplace, fp_down, front, rec);
        let (data, m) = choose|data: Seq<u8>, m: Meta|
            #[trigger] saved_as(start, front, data, m, rec);
        assert(saved_as(start, replies, data, m, rec));
    } else {
        lemma_file_sound(path, cfg, inplace, fp_down, front);
        let s = effects::run(start, front).0;
        assert(rec == s.record());
        let (data, m) = choose|data: Seq<u8>, m: Meta| #[trigger] knows(start, front, data, m);
        assert(saved_as(start, replies, data, m, rec));
    }
}

/// There is always something at the path of a file that is offloaded: an offload moves
/// nothing over it but a link that it has made beside it, and removes nothing but such a
/// link.
pub proof fn law_an_offload_removes_only_its_link(
    path: Seq<char>,
    cfg: ConfigView,
    inplace: Seq<char>,
    fp_down: bool,
    replies: Seq<ReplyView>,
    a: ActionView,
)
    requires
        effects::run(offload_start(path, cfg, inplace, fp_down), replies).1 == StepView::<
            OffloadResultView,
        >::Ask(a),
    ensures
        a matches ActionView::MakeLink { target, path: p } ==> exists|n: u32|
            p == #[trigger] paths::beside(path, n),
        a matches ActionView::Rename { from, to } ==> to == path && link_made(
            offload_start(path, cfg, inplace, fp_down),
            replies,
            from,
        ),
        a matches ActionView::RemoveFile { path: p } ==> link_made(
            offload_start(path, cfg, inplace, fp_down),
            replies,
            p,
        ),
        a matches ActionView::WriteFile { path: p, data } ==> p == path,
{
    lemma_file_sound(path, cfg, inplace, fp_down, replies);
    lemma_offload_sound(path, cfg, inplace, fp_down, replies);
    let s = effects::run(offload_start(path, cfg, inplace, fp_down), replies).0;
    assert(s.spot() == paths::beside(path, s.tries));
}

/// Content that is in the bucket is not uploaded again: an upload follows the answer that
/// there is no object under its key.
pub proof fn law_known_content_is_not_uploaded(
    path: Seq<char>,
    cfg: ConfigView,
    inplace: Seq<char>,
    fp_down: bool,
    replies: Seq<ReplyView>,
    key: Seq<char>,
    data: Seq<u8>,
)
    requires
        effects::run(offload_start(path, cfg, inplace, fp_down), replies).1 == StepView::<
            OffloadResultView,
        >::Ask(ActionView::StoreObject { at: cfg.remote(), key, data }),
    ensures
        key == cfg.key_for(hash::blake3_hex(data)),
        effects::happened(
            offload_start(path, cfg, inplace, fp_down),
            replies,
            ActionView::HeadObject { at: cfg.remote(), key },
            ReplyView::Found(Ok(false)),
        ),
{
    lemma_offload_sound(path, cfg, inplace, fp_down, replies);
    lemma_only_store_uploads(path, cfg, inplace, fp_down, replies);
}

/// Only one phase of an offload waits for an upload.
proof fn lemma_only_store_uploads(
    path: Seq<char>,
    cfg: ConfigView,
    inplace: Seq<char>,
    fp_down: bool,
    replies: Seq<ReplyView>,
)
    ensures
        effects::run(offload_start(path, cfg, inplace, fp_down), replies).1 matches StepView::Ask(
            a,
        ) ==> (a is StoreObject ==> effects::run(
            offload_start(path, cfg, inplace, fp_down),
            replies,
        ).0.phase is Store),
{
}

// ---- restoring ----------------------------------------------------------------------

/// A restore at its start.
pub open spec fn restore_start(path: Seq<char>, cfg: ConfigView) -> (
    RestoreView,
    StepView<RestoreResultView>,
) {
    (RestoreView::fresh(path, cfg), StepView::Ask(ActionView::LoadRecord { path }))
}

/// Whether bytes were downloaded for a file and are those that were recorded.
pub open spec fn verified(
    start: (RestoreView, StepView<RestoreResultView>),
    replies: Seq<ReplyView>,
    rec: RecordView,
    data: Seq<u8>,
) -> bool {
    &&& effects::happened(
        start,
        replies,
        ActionView::LoadRecord { path: start.0.path },
        ReplyView::Record(Ok(Some(rec))),
    )
    &&& effects::happened(
        start,
        replies,
        ActionView::GetObject { at: start.0.cfg.remote(), key: rec.s3_key },
        ReplyView::Object(Ok(data)),
    )
    &&& hash::blake3_hex(data) == rec.hash
}

/// What is known of a restore in each phase.
spec fn restore_sound(
    start: (RestoreView, StepView<RestoreResultView>),
    replies: Seq<ReplyView>,
) -> bool {
    let (s, step) = effects::run(start, replies);
    let path = start.0.path;
    let at = start.0.cfg.remote();
    &&& s.path == path
    &&& s.cfg == start.0.cfg
    &&& match s.phase {
        RestorePhase::Record => step == StepView::<RestoreResultView>::Ask(
            ActionView::LoadRecord { path },
        ),
        RestorePhase::Fetch => exists|rec: RecordView|
            {
                &&& #[trigger] effects::happened(
                    start,
                    replies,
                    ActionView::LoadRecord { path },
                    ReplyView::Record(Ok(Some(rec))),
                )
                &&& s.hash == rec.hash
                &&& step == StepView::<RestoreResultView>::Ask(
                    ActionView::GetObject { at, key: rec.s3_key },
                )
            },
        RestorePhase::Kind
        | RestorePhase::Unlink
        | RestorePhase::Unmirror
        | RestorePhase::Signal => {
            &&& exists|rec: RecordView| #[trigger] verified(start, replies, rec, s.data)
            &&& step matches StepView::Ask(a) && !(a is WriteFile)
        },
        RestorePhase::Write => exists|rec: RecordView, data: Seq<u8>|
            #[trigger] verified(start, replies, rec, data) && step == StepView::<
                RestoreResultView,
            >::Ask(ActionView::WriteFile { path, data }),
        _ => !(step matches StepView::Ask(a) && a is WriteFile),
    }
}

#[verifier::spinoff_prover]
#[verifier::rlimit(60)]
proof fn lemma_restore_sound(path: Seq<char>, cfg: ConfigView, replies: Seq<ReplyView>)
    ensures
        restore_sound(restore_start(path, cfg), replies),
    decreases replies.len(),
{
    let start = restore_start(path, cfg);
    if replies.len() > 0 {
        let front = replies.drop_last();
        let reply = replies.last();
        lemma_restore_sound(path, cfg, front);
        effects::lemma_happened(start, replies);
        let (s, step) = effects::run(start, front);
        let (t, next) = s.respond(reply);
        assert(effects::run(start, replies) == (t, next));
        match s.phase {
            RestorePhase::Record => {
                if t.phase is Fetch {
                    let rec = reply->Record_0->Ok_0->0;
                    assert(effects::happened(
                        start,
                        replies,
                        ActionView::LoadRecord { path },
                        ReplyView::Record(Ok(Some(rec))),
                    ));
                }
            },
            RestorePhase::Fetch => {
                let rec = choose|rec: RecordView|
                    {
                        &&& #[trigger] effects::happened(
                            start,
                            front,
                            ActionView::LoadRecord { path },
                            ReplyView::Record(Ok(Some(rec))),
                        )
                        &&& s.hash == rec.hash
                        &&& step == StepView::<RestoreResultView>::Ask(
                            ActionView::GetObject { at: cfg.remote(), key: rec.s3_key },
                        )
                    };
                if t.phase is Kind {
                    assert(verified(start, replies, rec, t.data));
                }
            },
            RestorePhase::Kind
            | RestorePhase::Unlink
            | RestorePhase::Unmirror
            | RestorePhase::Signal => {
                let rec = choose|rec: RecordView| #[trigger] verified(start, front, rec, s.data);
                assert(verified(start, replies, rec, s.data));
                if t.phase is Unlink || t.phase is Unmirror || t.phase is Signal {
                    assert(t.data == s.data);
                    assert(verified(start, replies, rec, t.data));
                } else if t.phase is Write {
                    assert(next == StepView::<RestoreResultView>::Ask(
                        ActionView::WriteFile { path, data: s.data },
                    ));
                }
            },
            _ => {},
        }
    }
}

/// A restore never writes anything but the recorded content: whatever is written goes to
/// the path of the file, was downloaded from the key in its record, and has the hash in
/// its record.
pub proof fn law_only_verified_content_is_restored(
    path: Seq<char>,
    cfg: ConfigView,
    replies: Seq<ReplyView>,
    to: Seq<char>,
    data: Seq<u8>,
)
    requires
        effects::run(restore_start(path, cfg), replies).1 == StepView::<RestoreResultView>::Ask(
            ActionView::WriteFile { path: to, data },
        ),
    ensures
        to == path,
        exists|rec: RecordView| #[trigger]
            verified(restore_start(path, cfg), replies, rec, data),
{
    lemma_restore_sound(path, cfg, replies);
}

/// Whether a file was brought back: its verified content was written, its mode and
/// modification time set to the recorded ones and its access time to the time then, and it
/// was marked as restored.
pub open spec fn brought_back(
    start: (RestoreView, StepView<RestoreResultView>),
    replies: Seq<ReplyView>,
    rec: RecordView,
    data: Seq<u8>,
    now: i64,
) -> bool {
    let path = start.0.path;
    let wrote = ReplyView::Wrote(Ok(()));
    &&& verified(start, replies, rec, data)
    &&& effects::happened(start, replies, ActionView::WriteFile { path, data }, wrote)
    &&& effects::happened(start, replies, ActionView::SetMode { path, mode: rec.mode }, wrote)
    &&& effects::happened(start, replies, ActionView::Clock, ReplyView::Time(now))
    &&& effects::happened(
        start,
        replies,
        ActionView::SetTimes { path, atime: now, mtime: rec.mtime },
        wrote,
    )
    &&& effects::happened(
        start,
        replies,
        ActionView::MarkRestored { path },
        ReplyView::Done(Ok(())),
    )
}

/// Whether a restore has its content and has not ended.
spec fn has_content(phase: RestorePhase) -> bool {
    !(phase is Record || phase is Fetch || phase is Over)
}

/// How far a restore has come: its content is verified, and it has done what the phases
/// before its own ask for.
spec fn on_its_way(
    start: (RestoreView, StepView<RestoreResultView>),
    replies: Seq<ReplyView>,
    rec: RecordView,
    data: Seq<u8>,
    now: i64,
) -> bool {
    let (s, step) = effects::run(start, replies);
    let path = start.0.path;
    let ask = |a: ActionView| StepView::<RestoreResultView>::Ask(a);
    let wrote = ReplyView::Wrote(Ok(()));
    let set_mode = ActionView::SetMode { path, mode: rec.mode };
    let set_times = ActionView::SetTimes { path, atime: now, mtime: rec.mtime };
    let written = s.phase is Mode || s.phase is Time || s.phase is Times || s.phase is Mark;
    &&& verified(start, replies, rec, data)
    &&& s.path == path
    &&& s.mode == rec.mode
    &&& s.mtime == rec.mtime
    &&& s.len == data.len() as usize
    &&& s.phase is Write ==> step == ask(ActionView::WriteFile { path, data })
    &&& !written && !(s.phase is Write) ==> s.data == data
    &&& written ==> effects::happened(start, replies, ActionView::WriteFile { path, data }, wrote)
    &&& s.phase is Mode ==> step == ask(set_mode)
    &&& written && !(s.phase is Mode) ==> effects::happened(start, replies, set_mode, wrote)
    &&& s.phase is Time ==> step == ask(ActionView::Clock)
    &&& s.phase is Times || s.phase is Mark ==> effects::happened(
        start,
        replies,
        ActionView::Clock,
        ReplyView::Time(now),
    )
    &&& s.phase is Times ==> step == ask(set_times)
    &&& s.phase is Mark ==> effects::happened(start, replies, set_times, wrote) && step == ask(
        ActionView::MarkRestored { path },
    )
}

#[verifier::spinoff_prover]
#[verifier::rlimit(60)]
proof fn lemma_on_its_way(
    start: (RestoreView, StepView<RestoreResultView>),
    replies: Seq<ReplyView>,
    rec: RecordView,
    data: Seq<u8>,
    now: i64,
)
    requires
        replies.len() > 0,
        has_content(effects::run(start, replies.drop_last()).0.phase),
        on_its_way(start, replies.drop_last(), rec, data, now),
    ensures
        ({
            let (t, next) = effects::run(start, replies);
            &&& has_content(t.phase) || t.phase is Over
            &&& has_content(t.phase) ==> exists|n: i64| #[trigger]
                on_its_way(start, replies, rec, data, n)
            &&& next matches StepView::End(Ok(res)) ==> {
                &&& brought_back(start, replies, rec, data, now)
                &&& res.path == start.0.path
                &&& res.bytes_restored == (data.len() as usize) as i64
            }
        }),
{
    let front = replies.drop_last();
    let reply = replies.last();
    let (s, step) = effects::run(start, front);
    let (t, next) = s.respond(reply);
    assert(effects::run(start, replies) == (t, next));
    effects::lemma_happened(start, replies);
    assert(verified(start, replies, rec, data));
    if !(t.phase is Over) && reply is Wrote && reply->Wrote_0 is Ok {
        assert(reply->Wrote_0->Ok_0 == ());
    }
    if s.phase is Mark && next is End && next->End_0 is Ok {
        assert(reply->Done_0->Ok_0 == ());
        assert(brought_back(start, replies, rec, data, now));
    }
    if has_content(t.phase) {
        if s.phase is Time {
            assert(on_its_way(start, replies, rec, data, reply->Time_0));
        } else {
            assert(on_its_way(start, replies, rec, data, now));
        }
    }
}

/// What is known of a restore that has its content, and of one that has succeeded.
spec fn way_sound(
    start: (RestoreView, StepView<RestoreResultView>),
    replies: Seq<ReplyView>,
) -> bool {
    let (s, step) = effects::run(start, replies);
    &&& s.phase is Fetch ==> exists|rec: RecordView|
        {
            &&& #[trigger] effects::happened(
                start,
                replies,
                ActionView::LoadRecord { path: start.0.path },
                ReplyView::Record(Ok(Some(rec))),
            )
            &&& s.hash == rec.hash
            &&& s.mode == rec.mode
            &&& s.mtime == rec.mtime
            &&& step == StepView::<RestoreResultView>::Ask(
                ActionView::GetObject { at: start.0.cfg.remote(), key: rec.s3_key },
            )
        }
    &&& has_content(s.phase) ==> exists|rec: RecordView, data: Seq<u8>, now: i64| #[trigger]
        on_its_way(start, replies, rec, data, now)
    &&& step matches StepView::End(Ok(res)) ==> exists|rec: RecordView, data: Seq<u8>, now: i64|
        #[trigger] brought_back(start, replies, rec, data, now) && res.path == start.0.path
            && res.bytes_restored == (data.len() as usize) as i64
}

#[verifier::spinoff_prover]
#[verifier::rlimit(60)]
proof fn lemma_way_sound(path: Seq<char>, cfg: ConfigView, replies: Seq<ReplyView>)
    ensures
        way_sound(restore_start(path, cfg), replies),
    decreases replies.len(),
{
    let start = restore_start(path, cfg);
    if replies.len() > 0 {
        let front = replies.drop_last();
        let reply = replies.last();
        lemma_way_sound(path, cfg, front);
        lemma_restore_sound(path, cfg, front);
        effects::lemma_happened(start, replies);
        let (s, step) = effects::run(start, front);
        let (t, next) = s.respond(reply);
        assert(effects::run(start, replies) == (t, next));
        if has_content(s.phase) {
            let (rec, data, now) = choose|rec: RecordView, data: Seq<u8>, now: i64| #[trigger]
                on_its_way(start, front, rec, data, now);
            lemma_on_its_way(start, replies, rec, data, now);
        } else if s.phase is Fetch {
            let rec = choose|rec: RecordView|
                {
                    &&& #[trigger] effects::happened(
                        start,
                        front,
                        ActionView::LoadRecord { path },
                        ReplyView::Record(Ok(Some(rec))),
                    )
                    &&& s.hash == rec.hash
                    &&& s.mode == rec.mode
                    &&& s.mtime == rec.mtime
                    &&& step == StepView::<RestoreResultView>::Ask(
                        ActionView::GetObject { at: cfg.remote(), key: rec.s3_key },
                    )
                };
            if t.phase is Kind {
                assert(verified(start, replies, rec, t.data));
                assert(on_its_way(start, replies, rec, t.data, 0));
            }
        } else if s.phase is Record && t.phase is Fetch {
            let rec = reply->Record_0->Ok_0->0;
            assert(effects::happened(
                start,
                replies,
                ActionView::LoadRecord { path },
                ReplyView::Record(Ok(Some(rec))),
            ));
        }
    }
}

/// A restore that succeeds has brought the file back as it was recorded: the content with
/// the recorded hash is written, and the recorded mode and modification time are set.
pub proof fn law_a_restore_brings_the_recorded_file_back(
    path: Seq<char>,
    cfg: ConfigView,
    replies: Seq<ReplyView>,
    res: RestoreResultView,
)
    requires
        effects::run(restore_start(path, cfg), replies).1 == StepView::<RestoreResultView>::End(
            Ok(res),
        ),
    ensures
        exists|rec: RecordView, data: Seq<u8>, now: i64|
            #[trigger] brought_back(restore_start(path, cfg), replies, rec, data, now) && res.path
                == path && res.bytes_restored == (data.len() as usize) as i64,
{
    lemma_way_sound(path, cfg, replies);
}

/// Whether a restore was given a record that an offload had saved, and for its key the
/// content that the offload had read.
pub open spec fn given_back(
    there: (OffloadView, StepView<OffloadResultView>),
    sent: Seq<ReplyView>,
    back: (RestoreView, StepView<RestoreResultView>),
    got: Seq<ReplyView>,
) -> bool {
    &&& forall|rec: RecordView| #[trigger]
        effects::happened(
            back,
            got,
            ActionView::LoadRecord { path: back.0.path },
            ReplyView::Record(Ok(Some(rec))),
        ) ==> effects::happened(
            there,
            sent,
            ActionView::SaveRecord { rec },
            ReplyView::Done(Ok(())),
        )
    &&& forall|key: Seq<char>, data: Seq<u8>| #[trigger]
        effects::happened(
            back,
            got,
            ActionView::GetObject { at: back.0.cfg.remote(), key },
            ReplyView::Object(Ok(data)),
        ) ==> effects::happened(
            there,
            sent,
            ActionView::ReadFile { path: there.0.path },
            ReplyView::File(Ok(data)),
        )
}

/// What was offloaded comes back, whatever failed on the way: where a restore succeeds that
/// is given the record and the content of an offload, the bytes that the offload has read
/// are written, the mode and the modification time that it has found are set, and the file
/// is marked as restored.
pub proof fn law_a_round_trip_gives_the_file_back(
    path: Seq<char>,
    cfg: ConfigView,
    inplace: Seq<char>,
    fp_down: bool,
    sent: Seq<ReplyView>,
    got: Seq<ReplyView>,
    res: RestoreResultView,
)
    requires
        effects::run(restore_start(path, cfg), got).1 == StepView::<RestoreResultView>::End(
            Ok(res),
        ),
        given_back(
            offload_start(path, cfg, inplace, fp_down),
            sent,
            restore_start(path, cfg),
            got,
        ),
    ensures
        ({
            let there = offload_start(path, cfg, inplace, fp_down);
            let back = restore_start(path, cfg);
            exists|data: Seq<u8>, m: Meta, now: i64|
                {
                    &&& effects::happened(
                        there,
                        sent,
                        ActionView::ReadFile { path },
                        ReplyView::File(Ok(data)),
                    )
                    &&& effects::happened(
                        there,
                        sent,
                        ActionView::StatMeta { path },
                        ReplyView::Meta(Ok(m)),
                    )
                    &&& #[trigger] put_back(back, got, data, m, now)
                    &&& res.path == path
                    &&& res.bytes_restored == (data.len() as usize) as i64
                }
        }),
{
    let there = offload_start(path, cfg, inplace, fp_down);
    let back = restore_start(path, cfg);
    law_a_restore_brings_the_recorded_file_back(path, cfg, got, res);
    let (rec, data, now) = choose|rec: RecordView, data: Seq<u8>, now: i64|
        #[trigger] brought_back(back, got, rec, data, now) && res.path == path
            && res.bytes_restored == (data.len() as usize) as i64;
    lemma_saved(path, cfg, inplace, fp_down, sent, rec);
    let (d, m) = choose|d: Seq<u8>, m: Meta| #[trigger] saved_as(there, sent, d, m, rec);
    assert(put_back(back, got, data, m, now));
}

/// Whether content, mode and modification time were given to a file by a restore, and it was
/// marked as restored.
pub open spec fn put_back(
    start: (RestoreView, StepView<RestoreResultView>),
    replies: Seq<ReplyView>,
    data: Seq<u8>,
    m: Meta,
    now: i64,
) -> bool {
    let path = start.0.path;
    let wrote = ReplyView::Wrote(Ok(()));
    &&& effects::happened(start, replies, ActionView::WriteFile { path, data }, wrote)
    &&& effects::happened(start, replies, ActionView::SetMode { path, mode: m.mode }, wrote)
    &&& effects::happened(
        start,
        replies,
        ActionView::SetTimes { path, atime: now, mtime: m.mtime },
        wrote,
    )
    &&& effects::happened(
        start,
        replies,
        ActionView::MarkRestored { path },
        ReplyView::Done(Ok(())),
    )
}

// ---- fetching and changing items ------------------------------------------------------

/// A fetch at its start.
pub open spec fn fetch_start(cfg: ConfigView, item_id: Seq<char>, out_path: Seq<char>) -> (
    FetchView,
    StepView<ItemView>,
) {
    (FetchView::fresh(cfg, item_id, out_path), StepView::Ask(ActionView::LoadItem { item_id }))
}

/// What is known of a fetch in each phase.
spec fn fetch_sound(start: (FetchView, StepView<ItemView>), replies: Seq<ReplyView>) -> bool {
    let (s, step) = effects::run(start, replies);
    &&& s.item_id == start.0.item_id
    &&& s.out_path == start.0.out_path
    &&& s.phase is Item ==> step == StepView::<ItemView>::Ask(
        ActionView::LoadItem { item_id: s.item_id },
    )
    &&& s.phase is Object ==> (s.item matches Some(it) && effects::happened(
        start,
        replies,
        ActionView::LoadItem { item_id: s.item_id },
        ReplyView::Item(Ok(Some(it))),
    ))
    &&& step matches StepView::Ask(ActionView::WriteFile { path, data }) ==> {
        &&& path == s.out_path
        &&& s.vouches_for(data)
        &&& s.item matches Some(it) && effects::happened(
            start,
            replies,
            ActionView::LoadItem { item_id: s.item_id },
            ReplyView::Item(Ok(Some(it))),
        )
    }
}

proof fn lemma_fetch_sound(
    cfg: ConfigView,
    item_id: Seq<char>,
    out_path: Seq<char>,
    replies: Seq<ReplyView>,
)
    ensures
        fetch_sound(fetch_start(cfg, item_id, out_path), replies),
    decreases replies.len(),
{
    let start = fetch_start(cfg, item_id, out_path);
    if replies.len() > 0 {
        let front = replies.drop_last();
        lemma_fetch_sound(cfg, item_id, out_path, front);
        effects::lemma_happened(start, replies);
        let (s, step) = effects::run(start, front);
        assert(effects::run(start, replies) == s.respond(replies.last()));
    }
}

/// A fetch never hands out content that is not the item's: whatever is written goes to
/// the given path and has the hash of the item, where the item has one.
pub proof fn law_only_verified_content_is_fetched(
    cfg: ConfigView,
    item_id: Seq<char>,
    out_path: Seq<char>,
    replies: Seq<ReplyView>,
    to: Seq<char>,
    data: Seq<u8>,
)
    requires
        effects::run(fetch_start(cfg, item_id, out_path), replies).1 == StepView::<ItemView>::Ask(
            ActionView::WriteFile { path: to, data },
        ),
    ensures
        to == out_path,
        exists|it: ItemView|
            #[trigger] effects::happened(
                fetch_start(cfg, item_id, out_path),
                replies,
                ActionView::LoadItem { item_id },
                ReplyView::Item(Ok(Some(it))),
            ) && (it.hash matches Some(h) ==> hash::blake3_hex(data) == h),
{
    lemma_fetch_sound(cfg, item_id, out_path, replies);
    let start = fetch_start(cfg, item_id, out_path);
    let s = effects::run(start, replies).0;
    let it = s.item->0;
    assert(effects::happened(
        start,
        replies,
        ActionView::LoadItem { item_id },
        ReplyView::Item(Ok(Some(it))),
    ));
}

/// A change at its start.
pub open spec fn update_start(cfg: ConfigView, item_id: Seq<char>, temp_path: Seq<char>) -> (
    UpdateView,
    StepView<ItemView>,
) {
    (UpdateView::fresh(cfg, item_id, temp_path), StepView::Ask(ActionView::LoadItem { item_id }))
}

/// Whether an item is another with new content: the version is one more, and the name
/// and place are the same.
pub open spec fn follows(new: ItemView, before: ItemView) -> bool {
    &&& new.version == before.version + 1
    &&& new.item_id == before.item_id
    &&& new.parent_id == before.parent_id
    &&& new.filename == before.filename
    &&& new.content_type == before.content_type
    &&& new.is_folder == before.is_folder
    &&& new.hash matches Some(h) && new.s3_key == Some(folder::item_key(h))
    &&& !new.dataless
}

spec fn update_sound(start: (UpdateView, StepView<ItemView>), replies: Seq<ReplyView>) -> bool {
    let (s, step) = effects::run(start, replies);
    let id = start.0.item_id;
    &&& s.item_id == id
    &&& !(step is End) ==> match s.phase {
        UpdatePhase::Item => step == StepView::<ItemView>::Ask(
            ActionView::LoadItem { item_id: id },
        ),
        UpdatePhase::Save => s.item matches Some(new) && exists|it: ItemView|
            #[trigger] effects::happened(
                start,
                replies,
                ActionView::LoadItem { item_id: id },
                ReplyView::Item(Ok(Some(it))),
            ) && (it.version < i64::MAX ==> follows(new, it)),
        UpdatePhase::Over => true,
        _ => s.item matches Some(it) && effects::happened(
            start,
            replies,
            ActionView::LoadItem { item_id: id },
            ReplyView::Item(Ok(Some(it))),
        ),
    }
    &&& step matches StepView::End(Ok(new)) ==> exists|it: ItemView|
        #[trigger] effects::happened(
            start,
            replies,
            ActionView::LoadItem { item_id: id },
            ReplyView::Item(Ok(Some(it))),
        ) && (it.version < i64::MAX ==> follows(new, it))
    &&& step is End ==> s.phase is Over
}

#[verifier::spinoff_prover]
#[verifier::rlimit(60)]
proof fn lemma_update_sound(
    cfg: ConfigView,
    item_id: Seq<char>,
    temp_path: Seq<char>,
    replies: Seq<ReplyView>,
)
    ensures
        update_sound(update_start(cfg, item_id, temp_path), replies),
    decreases replies.len(),
{
    let start = update_start(cfg, item_id, temp_path);
    if replies.len() > 0 {
        let front = replies.drop_last();
        lemma_update_sound(cfg, item_id, temp_path, front);
        effects::lemma_happened(start, replies);
        let (s, step) = effects::run(start, front);
        let (t, next) = s.respond(replies.last());
        assert(effects::run(start, replies) == (t, next));
        if s.phase is Accessed && t.phase is Save {
            let it = s.item->0;
            assert(effects::happened(
                start,
                replies,
                ActionView::LoadItem { item_id },
                ReplyView::Item(Ok(Some(it))),
            ));
        }
        if s.phase is Save && !(step is End) {
            let it = choose|it: ItemView|
                #[trigger] effects::happened(
                    start,
                    front,
                    ActionView::LoadItem { item_id },
                    ReplyView::Item(Ok(Some(it))),
                ) && (it.version < i64::MAX ==> follows(s.item->0, it));
            assert(effects::happened(
                start,
                replies,
                ActionView::LoadItem { item_id },
                ReplyView::Item(Ok(Some(it))),
            ));
        }
    }
}

/// Every change of content counts: an item whose content was changed has the next version
/// and keeps its name and place.
pub proof fn law_versions_grow(
    cfg: ConfigView,
    item_id: Seq<char>,
    temp_path: Seq<char>,
    replies: Seq<ReplyView>,
    new: ItemView,
)
    requires
        effects::run(update_start(cfg, item_id, temp_path), replies).1 == StepView::<ItemView>::End(
            Ok(new),
        ),
    ensures
        exists|it: ItemView|
            #[trigger] effects::happened(
                update_start(cfg, item_id, temp_path),
                replies,
                ActionView::LoadItem { item_id },
                ReplyView::Item(Ok(Some(it))),
            ) && (it.version < i64::MAX ==> follows(new, it)),
{
    lemma_update_sound(cfg, item_id, temp_path, replies);
}

// ---- sharing ------------------------------------------------------------------------

/// A share at its start.
pub open spec fn share_start(path: Seq<char>, cfg: ConfigView, inplace: Seq<char>) -> (
    ShareView,
    StepView<ShareResultView>,
) {
    (ShareView::fresh(path, cfg, inplace), StepView::Ask(ActionView::StatNode { path }))
}

/// Whether anyone may read the objects of share links, and there is one under a key.
pub open spec fn published(
    start: (ShareView, StepView<ShareResultView>),
    replies: Seq<ReplyView>,
    key: Seq<char>,
) -> bool {
    let at = start.0.cfg.remote();
    let done = ReplyView::Done(Ok(()));
    &&& effects::happened(start, replies, ActionView::OpenShares { at }, done)
    &&& {
        ||| effects::happened(
            start,
            replies,
            ActionView::HeadObject { at, key },
            ReplyView::Found(Ok(true)),
        )
        ||| exists|from: Seq<char>|
            #[trigger] effects::happened(
                start,
                replies,
                ActionView::CopyObject { at, from, key },
                done,
            )
        ||| exists|data: Seq<u8>|
            #[trigger] effects::happened(
                start,
                replies,
                ActionView::StoreObject { at, key, data },
                done,
            )
    }
}

/// What is known of a share in each phase.
spec fn share_sound(start: (ShareView, StepView<ShareResultView>), replies: Seq<ReplyView>) -> bool {
    let (s, step) = effects::run(start, replies);
    let at = start.0.cfg.remote();
    let opened = effects::happened(
        start,
        replies,
        ActionView::OpenShares { at },
        ReplyView::Done(Ok(())),
    );
    &&& s.cfg == start.0.cfg
    &&& match s.phase {
        SharePhase::Public => step == StepView::<ShareResultView>::Ask(
            ActionView::OpenShares { at },
        ),
        SharePhase::Copy => opened && exists|from: Seq<char>|
            step == StepView::<ShareResultView>::Ask(
                #[trigger] copy_action(start.0.cfg, from, s.key()),
            ),
        SharePhase::Head => opened && step == StepView::<ShareResultView>::Ask(
            ActionView::HeadObject { at, key: s.key() },
        ),
        SharePhase::Store => opened && exists|data: Seq<u8>|
            step == StepView::<ShareResultView>::Ask(
                #[trigger] store_action(start.0.cfg, s.key(), data),
            ),
        SharePhase::Time => published(start, replies, s.key()) && step == StepView::<
            ShareResultView,
        >::Ask(ActionView::Clock),
        SharePhase::Save => published(start, replies, s.key()) && exists|now: i64|
            step == StepView::<ShareResultView>::Ask(#[trigger] save_action(s, now)),
        _ => !(step matches StepView::Ask(a) && a is SaveShare),
    }
}

spec fn copy_action(cfg: ConfigView, from: Seq<char>, key: Seq<char>) -> ActionView {
    ActionView::CopyObject { at: cfg.remote(), from, key }
}

spec fn store_action(cfg: ConfigView, key: Seq<char>, data: Seq<u8>) -> ActionView {
    ActionView::StoreObject { at: cfg.remote(), key, data }
}

spec fn save_action(s: ShareView, now: i64) -> ActionView {
    ActionView::SaveShare { row: s.row(now) }
}

proof fn lemma_published_grows(
    start: (ShareView, StepView<ShareResultView>),
    replies: Seq<ReplyView>,
    key: Seq<char>,
)
    requires
        replies.len() > 0,
        published(start, replies.drop_last(), key),
    ensures
        published(start, replies, key),
{
    let front = replies.drop_last();
    let at = start.0.cfg.remote();
    let done = ReplyView::Done(Ok(()));
    effects::lemma_happened(start, replies);
    assert(effects::happened(start, replies, ActionView::OpenShares { at }, done));
    let found = ReplyView::Found(Ok(true));
    if effects::happened(start, front, ActionView::HeadObject { at, key }, found) {
        assert(effects::happened(start, replies, ActionView::HeadObject { at, key }, found));
    } else if exists|from: Seq<char>|
        #[trigger] effects::happened(
            start,
            front,
            ActionView::CopyObject { at, from, key },
            done,
        ) {
        let from = choose|from: Seq<char>|
            #[trigger] effects::happened(
                start,
                front,
                ActionView::CopyObject { at, from, key },
                done,
            );
        assert(effects::happened(start, replies, ActionView::CopyObject { at, from, key }, done));
    } else {
        let data = choose|data: Seq<u8>|
            #[trigger] effects::happened(
                start,
                front,
                ActionView::StoreObject { at, key, data },
                done,
            );
        assert(effects::happened(start, replies, ActionView::StoreObject { at, key, data }, done));
    }
}

#[verifier::spinoff_prover]
#[verifier::rlimit(60)]
proof fn lemma_share_sound(
    path: Seq<char>,
    cfg: ConfigView,
    inplace: Seq<char>,
    replies: Seq<ReplyView>,
)
    ensures
        share_sound(share_start(path, cfg, inplace), replies),
    decreases replies.len(),
{
    let start = share_start(path, cfg, inplace);
    if replies.len() > 0 {
        let front = replies.drop_last();
        let reply = replies.last();
        let at = cfg.remote();
        let done = ReplyView::Done(Ok(()));
        lemma_share_sound(path, cfg, inplace, front);
        effects::lemma_happened(start, replies);
        let (s, step) = effects::run(start, front);
        let (t, next) = s.respond(reply);
        assert(effects::run(start, replies) == (t, next));
        assert(t.key() == s.key() || !(s.phase is Public || s.phase is Copy || s.phase is Head
            || s.phase is Store || s.phase is Time || s.phase is Save));
        match s.phase {
            SharePhase::Public => {
                if !(t.phase is Over) {
                    assert(reply->Done_0->Ok_0 == ());
                    assert(effects::happened(start, replies, ActionView::OpenShares { at }, done));
                    if t.phase is Copy {
                        assert(next == StepView::<ShareResultView>::Ask(
                            copy_action(cfg, s.from->0, t.key()),
                        ));
                    }
                }
            },
            SharePhase::Head => {
                assert(effects::happened(start, replies, ActionView::OpenShares { at }, done));
                if t.phase is Time {
                    assert(effects::happened(
                        start,
                        replies,
                        ActionView::HeadObject { at, key: s.key() },
                        ReplyView::Found(Ok(true)),
                    ));
                    assert(published(start, replies, t.key()));
                } else if t.phase is Store {
                    assert(next == StepView::<ShareResultView>::Ask(
                        store_action(cfg, t.key(), s.data),
                    ));
                }
            },
            SharePhase::Copy => {
                assert(effects::happened(start, replies, ActionView::OpenShares { at }, done));
                if t.phase is Time {
                    let from = choose|from: Seq<char>|
                        step == StepView::<ShareResultView>::Ask(
                            #[trigger] copy_action(cfg, from, s.key()),
                        );
                    assert(reply->Done_0->Ok_0 == ());
                    assert(effects::happened(
                        start,
                        replies,
                        ActionView::CopyObject { at, from, key: s.key() },
                        done,
                    ));
                    assert(published(start, replies, t.key()));
                }
            },
            SharePhase::Store => {
                assert(effects::happened(start, replies, ActionView::OpenShares { at }, done));
                if t.phase is Time {
                    let data = choose|data: Seq<u8>|
                        step == StepView::<ShareResultView>::Ask(
                            #[trigger] store_action(cfg, s.key(), data),
                        );
                    assert(reply->Done_0->Ok_0 == ());
                    assert(effects::happened(
                        start,
                        replies,
                        ActionView::StoreObject { at, key: s.key(), data },
                        done,
                    ));
                    assert(published(start, replies, t.key()));
                }
            },
            SharePhase::Time => {
                lemma_published_grows(start, replies, s.key());
                if t.phase is Save {
                    assert(t.row(reply->Time_0) == s.row(reply->Time_0));
                    assert(next == StepView::<ShareResultView>::Ask(
                        save_action(t, reply->Time_0),
                    ));
                }
            },
            _ => {},
        }
    }
}

/// Sharing downloads nothing: what is in the bucket is copied there.
pub proof fn law_sharing_downloads_nothing(
    path: Seq<char>,
    cfg: ConfigView,
    inplace: Seq<char>,
    replies: Seq<ReplyView>,
    at: s3::RemoteView,
    key: Seq<char>,
)
    ensures
        effects::run(share_start(path, cfg, inplace), replies).1 != StepView::<
            ShareResultView,
        >::Ask(ActionView::GetObject { at, key }),
{
    if replies.len() > 0 {
        let s = effects::run(share_start(path, cfg, inplace), replies.drop_last()).0;
        assert(s.respond(replies.last()).1 != StepView::<ShareResultView>::Ask(
            ActionView::GetObject { at, key },
        ));
    }
}

/// A link is recorded only when it works: anyone may read the objects of share links, and
/// there is one under the key of the link.
pub proof fn law_recorded_links_are_published(
    path: Seq<char>,
    cfg: ConfigView,
    inplace: Seq<char>,
    replies: Seq<ReplyView>,
    row: crate::index::ShareRowView,
)
    requires
        effects::run(share_start(path, cfg, inplace), replies).1 == StepView::<
            ShareResultView,
        >::Ask(ActionView::SaveShare { row }),
    ensures
        published(share_start(path, cfg, inplace), replies, row.s3_key),
{
    lemma_share_sound(path, cfg, inplace, replies);
    let (s, step) = effects::run(share_start(path, cfg, inplace), replies);
    assert(s.phase is Save);
    let now = choose|now: i64|
        step == StepView::<ShareResultView>::Ask(#[trigger] save_action(s, now));
    assert(row == s.row(now));
}

/// A revocation at its start.
pub open spec fn unshare_start(token: Seq<char>, cfg: ConfigView) -> (
    UnshareView,
    StepView<crate::index::ShareRowView>,
) {
    (UnshareView::fresh(token, cfg), StepView::Ask(ActionView::LoadShare { token }))
}

spec fn unshare_sound(
    start: (UnshareView, StepView<crate::index::ShareRowView>),
    replies: Seq<ReplyView>,
) -> bool {
    let (s, step) = effects::run(start, replies);
    let at = start.0.cfg.remote();
    let token = start.0.token;
    &&& s.token == token
    &&& s.cfg == start.0.cfg
    &&& match s.phase {
        UnsharePhase::Row => step == StepView::<crate::index::ShareRowView>::Ask(
            ActionView::LoadShare { token },
        ),
        UnsharePhase::Delete => s.row matches Some(row) && effects::happened(
            start,
            replies,
            ActionView::LoadShare { token },
            ReplyView::Share(Ok(Some(row))),
        ) && step == StepView::<crate::index::ShareRowView>::Ask(
            ActionView::DeleteObject { at, key: row.s3_key },
        ),
        UnsharePhase::Forget => s.row matches Some(row) && effects::happened(
            start,
            replies,
            ActionView::LoadShare { token },
            ReplyView::Share(Ok(Some(row))),
        ) && effects::happened(
            start,
            replies,
            ActionView::DeleteObject { at, key: row.s3_key },
            ReplyView::Done(Ok(())),
        ),
        UnsharePhase::Over => !(step is Ask),
    }
}

proof fn lemma_unshare_sound(token: Seq<char>, cfg: ConfigView, replies: Seq<ReplyView>)
    ensures
        unshare_sound(unshare_start(token, cfg), replies),
    decreases replies.len(),
{
    let start = unshare_start(token, cfg);
    if replies.len() > 0 {
        let front = replies.drop_last();
        lemma_unshare_sound(token, cfg, front);
        effects::lemma_happened(start, replies);
        let (s, step) = effects::run(start, front);
        let (t, next) = s.respond(replies.last());
        assert(effects::run(start, replies) == (t, next));
        if s.phase is Delete && t.phase is Forget {
            assert(replies.last()->Done_0->Ok_0 == ());
        }
    }
}

/// A link is forgotten only when nothing can be read through it any more: the object of
/// the link was deleted.
pub proof fn law_forgotten_links_are_dead(
    token: Seq<char>,
    cfg: ConfigView,
    replies: Seq<ReplyView>,
    forgotten: Seq<char>,
)
    requires
        effects::run(unshare_start(token, cfg), replies).1 == StepView::<
            crate::index::ShareRowView,
        >::Ask(ActionView::ForgetShare { token: forgotten }),
    ensures
        forgotten == token,
        exists|row: crate::index::ShareRowView|
            #[trigger] effects::happened(
                unshare_start(token, cfg),
                replies,
                ActionView::LoadShare { token },
                ReplyView::Share(Ok(Some(row))),
            ) && effects::happened(
                unshare_start(token, cfg),
                replies,
                ActionView::DeleteObject { at: cfg.remote(), key: row.s3_key },
                ReplyView::Done(Ok(())),
            ),
{
    lemma_unshare_sound(token, cfg, replies);
    lemma_only_forget_forgets(token, cfg, replies);
}

/// Only one phase of a revocation waits for the link to be forgotten.
proof fn lemma_only_forget_forgets(token: Seq<char>, cfg: ConfigView, replies: Seq<ReplyView>)
    ensures
        effects::run(unshare_start(token, cfg), replies).1 matches StepView::Ask(a) ==> (
        a matches ActionView::ForgetShare { token: t } ==> {
            &&& effects::run(unshare_start(token, cfg), replies).0.phase is Forget
            &&& t == effects::run(unshare_start(token, cfg), replies).0.token
        }),
{
}

// ---- setting up ---------------------------------------------------------------------

/// A setup at its start.
pub open spec fn init_start(region: Seq<char>, policy: crate::config::PolicyView) -> (
    InitView,
    StepView<InitResultView>,
) {
    (InitView::fresh(region, policy), StepView::Ask(ActionView::AccountId { region }))
}

/// Whether there is a bucket: it was found, or it was created, or it was there already
/// when it was to be created.
pub open spec fn bucket_ready(
    start: (InitView, StepView<InitResultView>),
    replies: Seq<ReplyView>,
    at: s3::RemoteView,
) -> bool {
    ||| effects::happened(
        start,
        replies,
        ActionView::HeadBucket { at },
        ReplyView::Found(Ok(true)),
    )
    ||| exists|r: Result<(), Seq<char>>|
        #[trigger] effects::happened(
            start,
            replies,
            ActionView::CreateBucket { at, location: s3::location_of(at.region) },
            ReplyView::Wrote(r),
        ) && s3::creation_outcome(at.bucket, r) is Ok
}

spec fn init_sound(start: (InitView, StepView<InitResultView>), replies: Seq<ReplyView>) -> bool {
    let (s, step) = effects::run(start, replies);
    match s.phase {
        InitPhase::Bucket | InitPhase::Ensure => step == StepView::<InitResultView>::Ask(
            ActionView::HeadBucket { at: s.remote() },
        ),
        InitPhase::Create => step == StepView::<InitResultView>::Ask(
            ActionView::CreateBucket {
                at: s.remote(),
                location: s3::location_of(s.region),
            },
        ),
        InitPhase::Save => bucket_ready(start, replies, s.remote()) && step == StepView::<
            InitResultView,
        >::Ask(ActionView::SaveConfig { cfg: s.config() }),
        _ => !(step matches StepView::Ask(a) && a is SaveConfig),
    }
}

proof fn lemma_init_sound(
    region: Seq<char>,
    policy: crate::config::PolicyView,
    replies: Seq<ReplyView>,
)
    ensures
        init_sound(init_start(region, policy), replies),
    decreases replies.len(),
{
    let start = init_start(region, policy);
    if replies.len() > 0 {
        let front = replies.drop_last();
        let reply = replies.last();
        lemma_init_sound(region, policy, front);
        effects::lemma_happened(start, replies);
        let (s, step) = effects::run(start, front);
        let (t, next) = s.respond(reply);
        assert(effects::run(start, replies) == (t, next));
        if t.phase is Save && (s.phase is Ensure || s.phase is Create) {
            assert(t.remote() == s.remote());
            assert(t.config() == s.config());
            if s.phase is Ensure {
                assert(effects::happened(
                    start,
                    replies,
                    ActionView::HeadBucket { at: s.remote() },
                    ReplyView::Found(Ok(true)),
                ));
            } else {
                assert(effects::happened(
                    start,
                    replies,
                    ActionView::CreateBucket {
                        at: s.remote(),
                        location: s3::location_of(s.remote().region),
                    },
                    ReplyView::Wrote(reply->Wrote_0),
                ));
            }
            assert(bucket_ready(start, replies, t.remote()));
        }
    }
}

/// Stow is set up only on a bucket that is there: the configuration is written when the
/// bucket that it names was found or created.
pub proof fn law_the_configured_bucket_is_there(
    region: Seq<char>,
    policy: crate::config::PolicyView,
    replies: Seq<ReplyView>,
    cfg: ConfigView,
)
    requires
        effects::run(init_start(region, policy), replies).1 == StepView::<InitResultView>::Ask(
            ActionView::SaveConfig { cfg },
        ),
    ensures
        exists|at: s3::RemoteView|
            #[trigger] bucket_ready(init_start(region, policy), replies, at) && at.bucket
                == cfg.bucket && at.region == cfg.region,
{
    lemma_init_sound(region, policy, replies);
    let s = effects::run(init_start(region, policy), replies).0;
    assert(bucket_ready(init_start(region, policy), replies, s.remote()));
}

// ---- migrating ----------------------------------------------------------------------

/// A migration at its start.
pub open spec fn migrate_start(inplace: Seq<char>) -> (MigrateView, StepView<MigrateResultView>) {
    (MigrateView::fresh(inplace), StepView::Ask(ActionView::FindMount))
}

/// Whether a path was found to hold a stub.
pub open spec fn was_stub(
    start: (MigrateView, StepView<MigrateResultView>),
    replies: Seq<ReplyView>,
    path: Seq<char>,
) -> bool {
    exists|found: crate::placeholder::ProbeView|
        #[trigger] effects::happened(
            start,
            replies,
            ActionView::Probe { path },
            ReplyView::Probed(found),
        ) && found.placeholder(start.0.inplace) == Ok::<bool, Fault>(true)
}

/// Whether an action goes over the network.
pub open spec fn is_remote(a: ActionView) -> bool {
    ||| a is HeadObject
    ||| a is StoreObject
    ||| a is CopyObject
    ||| a is GetObject
    ||| a is DeleteObject
    ||| a is OpenShares
    ||| a is HeadBucket
    ||| a is CreateBucket
    ||| a is AccountId
    ||| a is ResolveCreds
}

/// The stub that a migration deals with.
spec fn current(s: MigrateView) -> Seq<char> {
    s.swaps[s.done as int].path
}

/// What a migration asks for in each phase.
spec fn asks_in_turn(s: MigrateView, step: StepView<MigrateResultView>) -> bool {
    let ask = |a: ActionView| StepView::<MigrateResultView>::Ask(a);
    &&& s.phase is Over <==> step is End
    &&& s.phase is Records ==> step == ask(ActionView::LoadRecords)
    &&& s.phase is Probe ==> step == ask(ActionView::Probe { path: s.records[s.at as int].path })
    &&& s.phase is Link ==> step == ask(
        ActionView::MakeLink {
            target: s.swaps[s.done as int].target,
            path: s.spot(),
        },
    )
    &&& s.phase is Put ==> step == ask(ActionView::Rename { from: s.spot(), to: current(s) })
    &&& s.phase is Undo ==> step == ask(ActionView::RemoveFile { path: s.spot() })
    &&& step matches StepView::Ask(a) ==> {
        &&& !is_remote(a)
        &&& !(a is WriteFile)
        &&& a is MakeLink ==> s.phase is Link
        &&& a is Rename ==> s.phase is Put
        &&& a is RemoveFile ==> s.phase is Undo
    }
    &&& step matches StepView::End(Ok(res)) ==> {
        &&& res.migrated == s.migrated
        &&& res.failures == s.failures
        &&& res.migrated.len() + res.failures.len() + res.skipped == s.records.len()
    }
}

#[verifier::spinoff_prover]
#[verifier::rlimit(40)]
proof fn lemma_asks_in_turn(s: MigrateView, reply: ReplyView)
    requires
        s.wf(),
    ensures
        s.respond(reply).0.wf(),
        asks_in_turn(s.respond(reply).0, s.respond(reply).1),
{
}

/// Whether the records of a migration have been read.
spec fn has_records(s: MigrateView) -> bool {
    ||| s.phase is Kind
    ||| s.phase is Probe
    ||| s.phase is Mirror
    ||| s.phase is Signal
    ||| s.phase is Look
    ||| s.phase is Pause
    ||| s.phase is Free
    ||| s.phase is Link
    ||| s.phase is Put
    ||| s.phase is Undo
}

/// What is known of a migration in each phase.
spec fn migrate_sound(
    start: (MigrateView, StepView<MigrateResultView>),
    replies: Seq<ReplyView>,
) -> bool {
    let (s, step) = effects::run(start, replies);
    let read = effects::happened(
        start,
        replies,
        ActionView::LoadRecords,
        ReplyView::Records(Ok(s.records)),
    );
    &&& s.wf()
    &&& s.inplace == start.0.inplace
    &&& asks_in_turn(s, step)
    &&& s.phase is Mirror ==> was_stub(start, replies, s.records[s.at as int].path)
    &&& forall|k: int|
        0 <= k < s.swaps.len() ==> was_stub(start, replies, #[trigger] s.swaps[k].path)
    &&& has_records(s) ==> read
    &&& s.phase is Put || s.phase is Undo ==> link_made(start, replies, s.spot())
    &&& step matches StepView::End(Ok(_)) ==> read
}

proof fn lemma_stub_grows(
    start: (MigrateView, StepView<MigrateResultView>),
    replies: Seq<ReplyView>,
)
    requires
        replies.len() > 0,
    ensures
        forall|path: Seq<char>|
            was_stub(start, replies.drop_last(), path) ==> #[trigger] was_stub(start, replies, path),
        forall|path: Seq<char>|
            link_made(start, replies.drop_last(), path) ==> #[trigger] link_made(
                start,
                replies,
                path,
            ),
{
    effects::lemma_happened(start, replies);
    assert forall|path: Seq<char>|
        was_stub(start, replies.drop_last(), path) implies #[trigger] was_stub(
        start,
        replies,
        path,
    ) by {
        let found = choose|found: crate::placeholder::ProbeView|
            #[trigger] effects::happened(
                start,
                replies.drop_last(),
                ActionView::Probe { path },
                ReplyView::Probed(found),
            ) && found.placeholder(start.0.inplace) == Ok::<bool, Fault>(true);
        assert(effects::happened(
            start,
            replies,
            ActionView::Probe { path },
            ReplyView::Probed(found),
        ));
    }
    lemma_link_made_grows(start, replies);
}

#[verifier::spinoff_prover]
#[verifier::rlimit(100)]
proof fn lemma_migrate_sound(inplace: Seq<char>, replies: Seq<ReplyView>)
    ensures
        migrate_sound(migrate_start(inplace), replies),
    decreases replies.len(),
{
    let start = migrate_start(inplace);
    if replies.len() > 0 {
        let front = replies.drop_last();
        let reply = replies.last();
        lemma_migrate_sound(inplace, front);
        effects::lemma_happened(start, replies);
        lemma_stub_grows(start, replies);
        let (s, step) = effects::run(start, front);
        let (t, next) = s.respond(reply);
        assert(effects::run(start, replies) == (t, next));
        lemma_asks_in_turn(s, reply);
        if s.phase is Probe && t.phase is Mirror {
            let path = s.records[s.at as int].path;
            assert(effects::happened(
                start,
                replies,
                ActionView::Probe { path },
                ReplyView::Probed(reply->Probed_0),
            ));
            assert(was_stub(start, replies, path));
        }
        if t.phase is Put {
            assert(s.phase is Link);
            assert(reply->Wrote_0->Ok_0 == ());
            assert(effects::happened(
                start,
                replies,
                ActionView::MakeLink {
                    target: s.swaps[s.done as int].target,
                    path: s.spot(),
                },
                ReplyView::Wrote(Ok(())),
            ));
            assert(t.spot() == s.spot());
            assert(link_made(start, replies, t.spot()));
        }
        if t.phase is Undo {
            assert(s.phase is Put);
            assert(t.spot() == s.spot());
        }
        assert forall|k: int| 0 <= k < t.swaps.len() implies was_stub(
            start,
            replies,
            #[trigger] t.swaps[k].path,
        ) by {
            if k < s.swaps.len() {
                assert(t.swaps[k] == s.swaps[k]);
                assert(was_stub(start, front, s.swaps[k].path));
            } else {
                assert(s.phase is Mirror);
                assert(was_stub(start, front, s.records[s.at as int].path));
            }
        }
    }
}

/// A migration accounts for every offloaded file: each is replaced, has failed or is
/// skipped.
pub proof fn law_a_migration_accounts_for_every_file(
    inplace: Seq<char>,
    replies: Seq<ReplyView>,
    res: MigrateResultView,
)
    requires
        effects::run(migrate_start(inplace), replies).1 == StepView::<MigrateResultView>::End(
            Ok(res),
        ),
    ensures
        exists|records: Seq<RecordView>|
            #[trigger] effects::happened(
                migrate_start(inplace),
                replies,
                ActionView::LoadRecords,
                ReplyView::Records(Ok(records)),
            ) && res.migrated.len() + res.failures.len() + res.skipped == records.len(),
{
    lemma_migrate_sound(inplace, replies);
}

/// A migration transfers nothing, writes no file, makes links only beside stubs, moves
/// nothing but such a link over its stub, and removes nothing but links that it has made.
pub proof fn law_a_migration_only_replaces_stubs(
    inplace: Seq<char>,
    replies: Seq<ReplyView>,
    a: ActionView,
)
    requires
        effects::run(migrate_start(inplace), replies).1 == StepView::<MigrateResultView>::Ask(a),
    ensures
        !is_remote(a),
        !(a is WriteFile),
        a matches ActionView::MakeLink { target, path } ==> exists|stub: Seq<char>, n: u32|
            was_stub(migrate_start(inplace), replies, stub) && path == #[trigger] paths::beside(
                stub,
                n,
            ),
        a matches ActionView::Rename { from, to } ==> {
            &&& was_stub(migrate_start(inplace), replies, to)
            &&& exists|n: u32| from == #[trigger] paths::beside(to, n)
            &&& link_made(migrate_start(inplace), replies, from)
        },
        a matches ActionView::RemoveFile { path } ==> link_made(
            migrate_start(inplace),
            replies,
            path,
        ),
{
    lemma_migrate_sound(inplace, replies);
    let s = effects::run(migrate_start(inplace), replies).0;
    if a is MakeLink || a is Rename {
        assert(was_stub(migrate_start(inplace), replies, s.swaps[s.done as int].path));
        assert(s.spot() == paths::beside(s.swaps[s.done as int].path, s.tries));
    }
}

/// Whether no two of the offloaded files that were read have the same path, as is always so
/// of what the index gives.
pub open spec fn read_distinct(
    start: (MigrateView, StepView<MigrateResultView>),
    replies: Seq<ReplyView>,
) -> bool {
    forall|records: Seq<RecordView>| #[trigger]
        effects::happened(
            start,
            replies,
            ActionView::LoadRecords,
            ReplyView::Records(Ok(records)),
        ) ==> distinct_paths(records)
}

/// Whether no two records have the same path.
pub open spec fn distinct_paths(records: Seq<RecordView>) -> bool {
    forall|i: int, j: int|
        0 <= i < j < records.len() ==> (#[trigger] records[i]).path != (#[trigger] records[j]).path
}

/// Whether a path has failed.
pub open spec fn has_failed(failures: Seq<AutoFailureView>, path: Seq<char>) -> bool {
    exists|k: int| 0 <= k < failures.len() && (#[trigger] failures[k]).path == path
}

/// Whether a path is among the first records.
spec fn is_among(records: Seq<RecordView>, n: nat, path: Seq<char>) -> bool {
    exists|i: int| 0 <= i < n && (#[trigger] records[i]).path == path
}

/// What was replaced, what has failed and what is still to be dealt with are apart.
spec fn kept_apart(s: MigrateView) -> bool {
    &&& forall|k: int|
        s.done <= k < s.swaps.len() ==> !s.migrated.contains((#[trigger] s.swaps[k]).path)
            && !has_failed(s.failures, s.swaps[k].path)
    &&& forall|j: int, k: int|
        s.done <= j < k < s.swaps.len() ==> (#[trigger] s.swaps[j]).path != (
        #[trigger] s.swaps[k]).path
    &&& forall|p: Seq<char>| #[trigger] s.migrated.contains(p) ==> !has_failed(s.failures, p)
    &&& s.phase is Kind || s.phase is Probe || s.phase is Mirror || s.phase is Signal ==> {
        &&& forall|k: int|
            0 <= k < s.swaps.len() ==> is_among(s.records, s.at, (#[trigger] s.swaps[k]).path)
        &&& forall|k: int|
            0 <= k < s.failures.len() ==> is_among(
                s.records,
                s.at,
                (#[trigger] s.failures[k]).path,
            )
    }
}

proof fn lemma_failed_push(failures: Seq<AutoFailureView>, f: AutoFailureView)
    ensures
        forall|p: Seq<char>| #[trigger]
            has_failed(failures.push(f), p) <==> has_failed(failures, p) || p == f.path,
{
    let after = failures.push(f);
    assert forall|p: Seq<char>| #[trigger] has_failed(after, p) <==> has_failed(failures, p) || p
        == f.path by {
        if has_failed(failures, p) {
            let k = choose|k: int| 0 <= k < failures.len() && (#[trigger] failures[k]).path == p;
            assert(after[k].path == p);
        }
        if p == f.path {
            assert(after[failures.len() as int].path == p);
        }
        if has_failed(after, p) {
            let k = choose|k: int| 0 <= k < after.len() && (#[trigger] after[k]).path == p;
            if k < failures.len() {
                assert(failures[k].path == p);
            }
        }
    }
}

proof fn lemma_replaced_push(migrated: Seq<Seq<char>>, p: Seq<char>)
    ensures
        forall|q: Seq<char>| #[trigger]
            migrated.push(p).contains(q) <==> migrated.contains(q) || q == p,
{
    let after = migrated.push(p);
    assert forall|q: Seq<char>| #[trigger] after.contains(q) <==> migrated.contains(q) || q == p by {
        if migrated.contains(q) {
            let k = choose|k: int| 0 <= k < migrated.len() && migrated[k] == q;
            assert(after[k] == q);
        }
        assert(after[migrated.len() as int] == p);
    }
}

/// A file that is looked at for the first time is not among those before it.
proof fn lemma_next_is_new(records: Seq<RecordView>, n: nat)
    requires
        n < records.len(),
        distinct_paths(records),
    ensures
        !is_among(records, n, records[n as int].path),
        forall|p: Seq<char>| #[trigger]
            is_among(records, n + 1, p) <==> is_among(records, n, p) || p == records[n as int].path,
{
    if is_among(records, n, records[n as int].path) {
        let i = choose|i: int|
            0 <= i < n && (#[trigger] records[i]).path == records[n as int].path;
        assert(records[i].path != records[n as int].path);
    }
    assert forall|p: Seq<char>| #[trigger] is_among(records, n + 1, p) <==> is_among(
        records,
        n,
        p,
    ) || p == records[n as int].path by {
        if is_among(records, n, p) {
            let i = choose|i: int| 0 <= i < n && (#[trigger] records[i]).path == p;
            assert(0 <= i < n + 1);
        }
    }
}

#[verifier::spinoff_prover]
#[verifier::rlimit(60)]
proof fn lemma_kept_apart(s: MigrateView, reply: ReplyView)
    requires
        s.wf(),
        kept_apart(s),
        distinct_paths(s.respond(reply).0.records),
    ensures
        kept_apart(s.respond(reply).0),
{
    let t = s.respond(reply).0;
    if s.phase is Kind || s.phase is Probe || s.phase is Mirror {
        lemma_next_is_new(s.records, s.at);
        let path = s.records[s.at as int].path;
        if t.swaps.len() > s.swaps.len() {
            assert(t.swaps[s.swaps.len() as int].path == path);
            assert forall|k: int| 0 <= k < s.swaps.len() implies (#[trigger] s.swaps[k]).path
                != path && t.swaps[k] == s.swaps[k] by {
                assert(is_among(s.records, s.at, s.swaps[k].path));
            }
            if has_failed(s.failures, path) {
                let k = choose|k: int|
                    0 <= k < s.failures.len() && (#[trigger] s.failures[k]).path == path;
                assert(is_among(s.records, s.at, s.failures[k].path));
            }
        } else if t.failures.len() > s.failures.len() {
            lemma_failed_push(s.failures, t.failures.last());
            assert(t.failures == s.failures.push(t.failures.last()));
            assert forall|k: int| 0 <= k < t.swaps.len() implies (#[trigger] t.swaps[k]).path
                != path by {
                assert(is_among(s.records, s.at, s.swaps[k].path));
            }
        }
    } else if t.done > s.done {
        let path = current(s);
        if t.failures.len() > s.failures.len() {
            lemma_failed_push(s.failures, t.failures.last());
            assert(t.failures == s.failures.push(t.failures.last()));
        } else {
            lemma_replaced_push(s.migrated, path);
            assert(t.migrated == s.migrated.push(path));
        }
        assert forall|k: int| t.done <= k < t.swaps.len() implies (#[trigger] t.swaps[k]).path
            != path by {
            assert(s.swaps[s.done as int].path != s.swaps[k].path);
        }
    }
}

/// Whether a migration has moved a link over what is at a path.
pub open spec fn put_over(
    start: (MigrateView, StepView<MigrateResultView>),
    replies: Seq<ReplyView>,
    from: Seq<char>,
    path: Seq<char>,
) -> bool {
    effects::happened(
        start,
        replies,
        ActionView::Rename { from, to: path },
        ReplyView::Wrote(Ok(())),
    )
}

/// Whether a migration has moved a link from beside a path over what is there.
pub open spec fn was_replaced(
    start: (MigrateView, StepView<MigrateResultView>),
    replies: Seq<ReplyView>,
    path: Seq<char>,
) -> bool {
    exists|n: u32| #[trigger] put_over(start, replies, paths::beside(path, n), path)
}

/// What is known of the paths of a migration.
spec fn paths_sound(
    start: (MigrateView, StepView<MigrateResultView>),
    replies: Seq<ReplyView>,
) -> bool {
    let s = effects::run(start, replies).0;
    &&& distinct_paths(s.records)
    &&& kept_apart(s)
    &&& forall|from: Seq<char>, p: Seq<char>| #[trigger]
        put_over(start, replies, from, p) ==> s.migrated.contains(p)
    &&& forall|p: Seq<char>| #[trigger]
        s.migrated.contains(p) ==> was_replaced(start, replies, p)
}

#[verifier::spinoff_prover]
#[verifier::rlimit(60)]
proof fn lemma_paths_sound(inplace: Seq<char>, replies: Seq<ReplyView>)
    requires
        read_distinct(migrate_start(inplace), replies),
    ensures
        paths_sound(migrate_start(inplace), replies),
    decreases replies.len(),
{
    let start = migrate_start(inplace);
    if replies.len() > 0 {
        let front = replies.drop_last();
        let reply = replies.last();
        effects::lemma_happened(start, replies);
        assert forall|records: Seq<RecordView>| #[trigger]
            effects::happened(
                start,
                front,
                ActionView::LoadRecords,
                ReplyView::Records(Ok(records)),
            ) implies distinct_paths(records) by {
            assert(effects::happened(
                start,
                replies,
                ActionView::LoadRecords,
                ReplyView::Records(Ok(records)),
            ));
        }
        lemma_paths_sound(inplace, front);
        lemma_migrate_sound(inplace, front);
        let (s, step) = effects::run(start, front);
        let (t, next) = s.respond(reply);
        assert(effects::run(start, replies) == (t, next));
        lemma_moved(s, reply);
        assert(distinct_paths(t.records)) by {
            if t.records != s.records {
                assert(effects::happened(
                    start,
                    replies,
                    ActionView::LoadRecords,
                    ReplyView::Records(Ok(t.records)),
                ));
            }
        }
        lemma_kept_apart(s, reply);
        lemma_replaced_push(s.migrated, current(s));
        assert forall|from: Seq<char>, p: Seq<char>| #[trigger]
            put_over(start, replies, from, p) implies t.migrated.contains(p) by {
            effects::lemma_happened_last(
                start,
                replies,
                ActionView::Rename { from, to: p },
                ReplyView::Wrote(Ok(())),
            );
            if put_over(start, front, from, p) {
                assert(s.migrated.contains(p));
            }
        }
        assert forall|p: Seq<char>| #[trigger] t.migrated.contains(p) implies was_replaced(
            start,
            replies,
            p,
        ) by {
            if s.migrated.contains(p) {
                assert(was_replaced(start, front, p));
                let n = choose|n: u32| #[trigger]
                    put_over(start, front, paths::beside(p, n), p);
                assert(put_over(start, replies, paths::beside(p, n), p));
            } else {
                assert(p == current(s));
                assert(put_over(start, replies, paths::beside(p, s.tries), p));
            }
        }
    }
}

/// A path is replaced exactly when a link was moved over it.
proof fn lemma_moved(s: MigrateView, reply: ReplyView)
    requires
        s.wf(),
    ensures
        ({
            let t = s.respond(reply).0;
            if s.phase is Put && reply == ReplyView::Wrote(Ok(())) {
                t.migrated == s.migrated.push(current(s))
            } else {
                t.migrated == s.migrated
            }
        }),
        s.respond(reply).0.records != s.records ==> s.phase is Records && reply
            == ReplyView::Records(Ok(s.respond(reply).0.records)),
{
    if s.phase is Put && reply is Wrote && reply->Wrote_0 is Ok {
        assert(reply->Wrote_0->Ok_0 == ());
    }
}

/// A file whose migration fails keeps its stub: nothing was moved over it and nothing
/// written there. Where something was removed at that path, or moved away from it, it was a
/// link that the migration had made there, which works only where there is nothing.
pub proof fn law_a_failed_migration_keeps_its_stub(
    inplace: Seq<char>,
    replies: Seq<ReplyView>,
    res: MigrateResultView,
    k: int,
)
    requires
        effects::run(migrate_start(inplace), replies).1 == StepView::<MigrateResultView>::End(
            Ok(res),
        ),
        0 <= k < res.failures.len(),
        read_distinct(migrate_start(inplace), replies),
    ensures
        ({
            let start = migrate_start(inplace);
            let path = res.failures[k].path;
            &&& forall|from: Seq<char>| !#[trigger] put_over(start, replies, from, path)
            &&& forall|data: Seq<u8>, reply: ReplyView|
                !#[trigger] effects::happened(
                    start,
                    replies,
                    ActionView::WriteFile { path, data },
                    reply,
                )
            &&& forall|reply: ReplyView| #[trigger]
                effects::happened(start, replies, ActionView::RemoveFile { path }, reply)
                    ==> link_made(start, replies, path)
            &&& forall|to: Seq<char>, reply: ReplyView| #[trigger]
                effects::happened(start, replies, ActionView::Rename { from: path, to }, reply)
                    ==> link_made(start, replies, path)
        }),
{
    let start = migrate_start(inplace);
    let path = res.failures[k].path;
    lemma_migrate_sound(inplace, replies);
    lemma_paths_sound(inplace, replies);
    let s = effects::run(start, replies).0;
    assert(has_failed(s.failures, path));
    assert forall|from: Seq<char>| !#[trigger] put_over(start, replies, from, path) by {
        if put_over(start, replies, from, path) {
            assert(s.migrated.contains(path));
        }
    }
    assert forall|data: Seq<u8>, reply: ReplyView|
        !#[trigger] effects::happened(
            start,
            replies,
            ActionView::WriteFile { path, data },
            reply,
        ) by {
        if effects::happened(start, replies, ActionView::WriteFile { path, data }, reply) {
            lemma_was_allowed(inplace, replies, ActionView::WriteFile { path, data }, reply);
        }
    }
    assert forall|reply: ReplyView| #[trigger]
        effects::happened(start, replies, ActionView::RemoveFile { path }, reply) implies link_made(
        start,
        replies,
        path,
    ) by {
        lemma_was_allowed(inplace, replies, ActionView::RemoveFile { path }, reply);
    }
    assert forall|to: Seq<char>, reply: ReplyView| #[trigger]
        effects::happened(
            start,
            replies,
            ActionView::Rename { from: path, to },
            reply,
        ) implies link_made(start, replies, path) by {
        lemma_was_allowed(inplace, replies, ActionView::Rename { from: path, to }, reply);
    }
}

/// What a migration has done it was allowed to do.
proof fn lemma_was_allowed(
    inplace: Seq<char>,
    replies: Seq<ReplyView>,
    a: ActionView,
    reply: ReplyView,
)
    requires
        effects::happened(migrate_start(inplace), replies, a, reply),
    ensures
        !(a is WriteFile),
        a matches ActionView::RemoveFile { path } ==> link_made(
            migrate_start(inplace),
            replies,
            path,
        ),
        a matches ActionView::Rename { from, to } ==> link_made(
            migrate_start(inplace),
            replies,
            from,
        ),
    decreases replies.len(),
{
    let start = migrate_start(inplace);
    let front = replies.drop_last();
    effects::lemma_happened_last(start, replies, a, reply);
    lemma_stub_grows(start, replies);
    if effects::happened(start, front, a, reply) {
        lemma_was_allowed(inplace, front, a, reply);
    } else {
        law_a_migration_only_replaces_stubs(inplace, front, a);
    }
}

/// No file is both migrated and failed, and every migrated one has a link in its place: the
/// link was made beside it and moved over it.
pub proof fn law_migrated_files_are_links(
    inplace: Seq<char>,
    replies: Seq<ReplyView>,
    res: MigrateResultView,
    path: Seq<char>,
)
    requires
        effects::run(migrate_start(inplace), replies).1 == StepView::<MigrateResultView>::End(
            Ok(res),
        ),
        res.migrated.contains(path),
        read_distinct(migrate_start(inplace), replies),
    ensures
        !has_failed(res.failures, path),
        exists|n: u32|
            link_made(migrate_start(inplace), replies, paths::beside(path, n))
                && #[trigger] put_over(
                migrate_start(inplace),
                replies,
                paths::beside(path, n),
                path,
            ),
{
    lemma_migrate_sound(inplace, replies);
    lemma_paths_sound(inplace, replies);
    assert(was_replaced(migrate_start(inplace), replies, path));
    let n = choose|n: u32| #[trigger]
        put_over(migrate_start(inplace), replies, paths::beside(path, n), path);
    let from = paths::beside(path, n);
    lemma_was_allowed(
        inplace,
        replies,
        ActionView::Rename { from, to: path },
        ReplyView::Wrote(Ok(())),
    );
}

} // verus!

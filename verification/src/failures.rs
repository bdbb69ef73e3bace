//! Laws of failure: what the host reports as failed ends the flow that asked for it, with just
//! the error that was reported.

use vstd::prelude::*;

use crate::config::ConfigView;
use crate::effects;
use crate::effects::{ActionView, Flow, ReplyView, StepView};
use crate::error::Fault;
use crate::index::ShareRowView;
use crate::items;
use crate::laws;
use crate::migrate::MigrateResultView;
use crate::offload::OffloadResultView;
use crate::provider::ItemView;
use crate::restore::RestoreResultView;
use crate::share::ShareResultView;

verus! {

/// Whether a flow, given one more reply, ends with an error.
pub open spec fn ends_with<F: Flow>(
    start: (F, StepView<F::Out>),
    replies: Seq<ReplyView>,
    reply: ReplyView,
    e: Fault,
) -> bool {
    effects::run(start, replies.push(reply)).1 == StepView::<F::Out>::End(Err(e))
}

/// One more reply is answered by the state that the replies before it have led to.
proof fn lemma_one_more<F: Flow>(start: (F, StepView<F::Out>), replies: Seq<ReplyView>)
    ensures
        forall|reply: ReplyView| #[trigger]
            effects::run(start, replies.push(reply)) == effects::run(start, replies).0.next(reply),
{
    assert forall|reply: ReplyView| #[trigger]
        effects::run(start, replies.push(reply)) == effects::run(start, replies).0.next(reply) by {
        assert(replies.push(reply).drop_last() =~= replies);
        assert(replies.push(reply).last() == reply);
    }
}

/// The last step of a run is an answer to its last reply.
proof fn lemma_last_step<F: Flow>(start: (F, StepView<F::Out>), replies: Seq<ReplyView>)
    ensures
        replies.len() == 0 ==> effects::run(start, replies) == start,
        replies.len() > 0 ==> effects::run(start, replies) == effects::run(
            start,
            replies.drop_last(),
        ).0.next(replies.last()),
{
}

/// A share keeps its path.
proof fn lemma_shared_path(
    path: Seq<char>,
    cfg: ConfigView,
    inplace: Seq<char>,
    replies: Seq<ReplyView>,
)
    ensures
        effects::run(laws::share_start(path, cfg, inplace), replies).0.path == path,
    decreases replies.len(),
{
    let start = laws::share_start(path, cfg, inplace);
    if replies.len() > 0 {
        lemma_shared_path(path, cfg, inplace, replies.drop_last());
        let s = effects::run(start, replies.drop_last()).0;
        assert(effects::run(start, replies) == s.respond(replies.last()));
    }
}

/// A creation keeps the path of the file that it reads.
proof fn lemma_created_path(
    cfg: ConfigView,
    nonce: u64,
    parent_id: Seq<char>,
    filename: Seq<char>,
    is_folder: bool,
    temp_path: Seq<char>,
    replies: Seq<ReplyView>,
)
    ensures
        effects::run(
            items::create_start(cfg, nonce, parent_id, filename, is_folder, temp_path),
            replies,
        ).0.temp_path == temp_path,
    decreases replies.len(),
{
    let start = items::create_start(cfg, nonce, parent_id, filename, is_folder, temp_path);
    if replies.len() > 0 {
        let front = replies.drop_last();
        lemma_created_path(cfg, nonce, parent_id, filename, is_folder, temp_path, front);
        let s = effects::run(start, front).0;
        assert(effects::run(start, replies) == s.respond(replies.last()));
    }
}

/// A change keeps the path of the file that it reads.
proof fn lemma_changed_path(
    cfg: ConfigView,
    item_id: Seq<char>,
    temp_path: Seq<char>,
    replies: Seq<ReplyView>,
)
    ensures
        effects::run(laws::update_start(cfg, item_id, temp_path), replies).0.temp_path == temp_path,
    decreases replies.len(),
{
    let start = laws::update_start(cfg, item_id, temp_path);
    if replies.len() > 0 {
        lemma_changed_path(cfg, item_id, temp_path, replies.drop_last());
        let s = effects::run(start, replies.drop_last()).0;
        assert(effects::run(start, replies) == s.respond(replies.last()));
    }
}

/// An offload ends with the error of the step that failed: nothing is passed over but what a
/// stub makes good.
#[verifier::spinoff_prover]
#[verifier::rlimit(40)]
pub proof fn law_an_offload_ends_with_the_hosts_error(
    path: Seq<char>,
    cfg: ConfigView,
    inplace: Seq<char>,
    fp_down: bool,
    replies: Seq<ReplyView>,
    a: ActionView,
    m: Seq<char>,
    e: Fault,
)
    requires
        effects::run(laws::offload_start(path, cfg, inplace, fp_down), replies).1 == StepView::<
            OffloadResultView,
        >::Ask(a),
    ensures
        ({
            let start = laws::offload_start(path, cfg, inplace, fp_down);
            let ends = |reply: ReplyView, f: Fault| ends_with(start, replies, reply, f);
            &&& a is StatFile ==> ends(ReplyView::Kind(Err(m)), Fault::Io(path + ": "@ + m))
            &&& a is ReadFile ==> ends(ReplyView::File(Err(m)), Fault::Io(m))
            &&& a is StatMeta ==> ends(ReplyView::Meta(Err(m)), Fault::Io(m))
            &&& a is HeadObject ==> ends(ReplyView::Found(Err(e)), e)
            &&& a is StoreObject || a is SaveRecord ==> ends(ReplyView::Done(Err(e)), e)
            &&& a is RenderStub ==> ends(ReplyView::Text(Err(e)), e)
            &&& a is WriteFile ==> ends(ReplyView::Wrote(Err(m)), Fault::Io(m))
        }),
{
    let start = laws::offload_start(path, cfg, inplace, fp_down);
    lemma_one_more(start, replies);
    lemma_last_step(start, replies);
    if replies.len() > 0 {
        let s = effects::run(start, replies.drop_last()).0;
        assert(effects::run(start, replies) == s.respond(replies.last()));
    }
    let t = effects::run(start, replies).0;
    assert(forall|reply: ReplyView| #[trigger]
        effects::run(start, replies.push(reply)) == t.respond(reply));
}

/// A restore ends with the error of the step that failed.
#[verifier::spinoff_prover]
#[verifier::rlimit(40)]
pub proof fn law_a_restore_ends_with_the_hosts_error(
    path: Seq<char>,
    cfg: ConfigView,
    replies: Seq<ReplyView>,
    a: ActionView,
    m: Seq<char>,
    e: Fault,
)
    requires
        effects::run(laws::restore_start(path, cfg), replies).1 == StepView::<
            RestoreResultView,
        >::Ask(a),
    ensures
        ({
            let start = laws::restore_start(path, cfg);
            let ends = |reply: ReplyView, f: Fault| ends_with(start, replies, reply, f);
            &&& a is LoadRecord ==> ends(ReplyView::Record(Err(e)), e)
            &&& a is GetObject ==> ends(ReplyView::Object(Err(e)), e)
            &&& a is RemoveFile || a is WriteFile || a is SetMode || a is SetTimes ==> ends(
                ReplyView::Wrote(Err(m)),
                Fault::Io(m),
            )
            &&& a is MarkRestored ==> ends(ReplyView::Done(Err(e)), e)
        }),
{
    let start = laws::restore_start(path, cfg);
    lemma_one_more(start, replies);
    lemma_last_step(start, replies);
    if replies.len() > 0 {
        let s = effects::run(start, replies.drop_last()).0;
        assert(effects::run(start, replies) == s.respond(replies.last()));
    }
    let t = effects::run(start, replies).0;
    assert(forall|reply: ReplyView| #[trigger]
        effects::run(start, replies.push(reply)) == t.respond(reply));
}

/// A share ends with the error of the step that failed.
#[verifier::spinoff_prover]
#[verifier::rlimit(40)]
pub proof fn law_a_share_ends_with_the_hosts_error(
    path: Seq<char>,
    cfg: ConfigView,
    inplace: Seq<char>,
    replies: Seq<ReplyView>,
    a: ActionView,
    m: Seq<char>,
    e: Fault,
)
    requires
        effects::run(laws::share_start(path, cfg, inplace), replies).1 == StepView::<
            ShareResultView,
        >::Ask(a),
    ensures
        ({
            let start = laws::share_start(path, cfg, inplace);
            let ends = |reply: ReplyView, f: Fault| ends_with(start, replies, reply, f);
            &&& a is RandomBytes ==> ends(ReplyView::Random(Err(m)), Fault::Io("urandom: "@ + m))
            &&& a is ZipTree ==> ends(ReplyView::Zipped(Err(e)), e)
            &&& a is StatNode ==> ends(ReplyView::Kind(Err(m)), Fault::Io(path + ": "@ + m))
            &&& a is LoadRecord ==> ends(ReplyView::Record(Err(e)), e)
            &&& a is LoadRecord ==> ends(
                ReplyView::Record(Ok(None)),
                Fault::NotFound(path + " is offloaded but not tracked"@),
            )
            &&& a is LoadItems ==> ends(ReplyView::Items(Err(e)), e)
            &&& a is ReadFile ==> ends(ReplyView::File(Err(m)), Fault::Io(m))
            &&& a is HeadObject ==> ends(ReplyView::Found(Err(e)), e)
            &&& a is OpenIndex || a is OpenShares || a is CopyObject || a is StoreObject
                || a is SaveShare ==> ends(ReplyView::Done(Err(e)), e)
        }),
{
    let start = laws::share_start(path, cfg, inplace);
    lemma_shared_path(path, cfg, inplace, replies);
    lemma_one_more(start, replies);
    lemma_last_step(start, replies);
    if replies.len() > 0 {
        let s = effects::run(start, replies.drop_last()).0;
        assert(effects::run(start, replies) == s.respond(replies.last()));
    }
    let t = effects::run(start, replies).0;
    assert(forall|reply: ReplyView| #[trigger]
        effects::run(start, replies.push(reply)) == t.respond(reply));
}

/// A revocation ends with the error of the step that failed; a token that is not known is not
/// found.
pub proof fn law_a_revocation_ends_with_the_hosts_error(
    token: Seq<char>,
    cfg: ConfigView,
    replies: Seq<ReplyView>,
    a: ActionView,
    e: Fault,
)
    requires
        effects::run(laws::unshare_start(token, cfg), replies).1 == StepView::<ShareRowView>::Ask(a),
    ensures
        ({
            let start = laws::unshare_start(token, cfg);
            let ends = |reply: ReplyView, f: Fault| ends_with(start, replies, reply, f);
            &&& a is LoadShare ==> ends(ReplyView::Share(Err(e)), e)
            &&& a is LoadShare ==> ends(
                ReplyView::Share(Ok(None)),
                Fault::NotFound("no share with token "@ + token),
            )
            &&& a is DeleteObject || a is ForgetShare ==> ends(ReplyView::Done(Err(e)), e)
        }),
{
    let start = laws::unshare_start(token, cfg);
    lemma_one_more(start, replies);
    lemma_last_step(start, replies);
    if replies.len() > 0 {
        let s = effects::run(start, replies.drop_last()).0;
        assert(effects::run(start, replies) == s.respond(replies.last()));
    }
    let t = effects::run(start, replies).0;
    assert(forall|reply: ReplyView| #[trigger]
        effects::run(start, replies.push(reply)) == t.respond(reply));
}

/// A creation ends with the error of the step that failed.
#[verifier::spinoff_prover]
#[verifier::rlimit(40)]
pub proof fn law_a_creation_ends_with_the_hosts_error(
    cfg: ConfigView,
    nonce: u64,
    parent_id: Seq<char>,
    filename: Seq<char>,
    is_folder: bool,
    temp_path: Seq<char>,
    replies: Seq<ReplyView>,
    a: ActionView,
    m: Seq<char>,
    e: Fault,
)
    requires
        effects::run(
            items::create_start(cfg, nonce, parent_id, filename, is_folder, temp_path),
            replies,
        ).1 == StepView::<ItemView>::Ask(a),
    ensures
        ({
            let start = items::create_start(cfg, nonce, parent_id, filename, is_folder, temp_path);
            let ends = |reply: ReplyView, f: Fault| ends_with(start, replies, reply, f);
            &&& a is ReadFile ==> ends(ReplyView::File(Err(m)), Fault::Io(temp_path + ": "@ + m))
            &&& a is HeadObject ==> ends(ReplyView::Found(Err(e)), e)
            &&& a is OpenStore || a is StoreObject || a is SaveItem ==> ends(
                ReplyView::Done(Err(e)),
                e,
            )
        }),
{
    let start = items::create_start(cfg, nonce, parent_id, filename, is_folder, temp_path);
    lemma_created_path(cfg, nonce, parent_id, filename, is_folder, temp_path, replies);
    lemma_one_more(start, replies);
    lemma_last_step(start, replies);
    if replies.len() > 0 {
        let s = effects::run(start, replies.drop_last()).0;
        assert(effects::run(start, replies) == s.respond(replies.last()));
    }
    let t = effects::run(start, replies).0;
    assert(forall|reply: ReplyView| #[trigger]
        effects::run(start, replies.push(reply)) == t.respond(reply));
}

/// A change ends with the error of the step that failed; an item that is not known is not found.
#[verifier::spinoff_prover]
#[verifier::rlimit(40)]
pub proof fn law_a_change_ends_with_the_hosts_error(
    cfg: ConfigView,
    item_id: Seq<char>,
    temp_path: Seq<char>,
    replies: Seq<ReplyView>,
    a: ActionView,
    m: Seq<char>,
    e: Fault,
)
    requires
        effects::run(laws::update_start(cfg, item_id, temp_path), replies).1 == StepView::<
            ItemView,
        >::Ask(a),
    ensures
        ({
            let start = laws::update_start(cfg, item_id, temp_path);
            let ends = |reply: ReplyView, f: Fault| ends_with(start, replies, reply, f);
            &&& a is LoadItem ==> ends(ReplyView::Item(Err(e)), e)
            &&& a is ReadFile ==> ends(ReplyView::File(Err(m)), Fault::Io(temp_path + ": "@ + m))
            &&& a is HeadObject ==> ends(ReplyView::Found(Err(e)), e)
            &&& a is StoreObject || a is SaveItem ==> ends(ReplyView::Done(Err(e)), e)
        }),
        ends_with(
            laws::update_start(cfg, item_id, temp_path),
            Seq::empty(),
            ReplyView::Item(Ok(None)),
            Fault::NotFound(item_id),
        ),
{
    let start = laws::update_start(cfg, item_id, temp_path);
    lemma_changed_path(cfg, item_id, temp_path, replies);
    lemma_one_more(start, replies);
    lemma_one_more(start, Seq::empty());
    lemma_last_step(start, replies);
    lemma_last_step(start, Seq::empty());
    if replies.len() > 0 {
        let s = effects::run(start, replies.drop_last()).0;
        assert(effects::run(start, replies) == s.respond(replies.last()));
    }
    let t = effects::run(start, replies).0;
    assert(forall|reply: ReplyView| #[trigger]
        effects::run(start, replies.push(reply)) == t.respond(reply));
    assert(effects::run(start, Seq::<ReplyView>::empty().push(ReplyView::Item(Ok(None))))
        == start.0.respond(ReplyView::Item(Ok(None))));
}

/// A fetch ends with the error of the step that failed; an item that is not known is not found,
/// and neither is the content of one that has none.
#[verifier::spinoff_prover]
#[verifier::rlimit(40)]
pub proof fn law_a_fetch_ends_with_the_hosts_error(
    cfg: ConfigView,
    item_id: Seq<char>,
    out_path: Seq<char>,
    replies: Seq<ReplyView>,
    a: ActionView,
    m: Seq<char>,
    e: Fault,
    item: ItemView,
)
    requires
        effects::run(laws::fetch_start(cfg, item_id, out_path), replies).1 == StepView::<
            ItemView,
        >::Ask(a),
    ensures
        ({
            let start = laws::fetch_start(cfg, item_id, out_path);
            let ends = |reply: ReplyView, f: Fault| ends_with(start, replies, reply, f);
            &&& a is LoadItem ==> ends(ReplyView::Item(Err(e)), e)
            &&& a is GetObject ==> ends(ReplyView::Object(Err(e)), e)
            &&& a is WriteFile ==> ends(ReplyView::Wrote(Err(m)), Fault::Io(m))
            &&& a is SetDataless || a is TouchAccess ==> ends(ReplyView::Done(Err(e)), e)
        }),
        ends_with(
            laws::fetch_start(cfg, item_id, out_path),
            Seq::empty(),
            ReplyView::Item(Ok(None)),
            Fault::NotFound(item_id),
        ),
        item.s3_key is None ==> ends_with(
            laws::fetch_start(cfg, item_id, out_path),
            Seq::empty(),
            ReplyView::Item(Ok(Some(item))),
            Fault::NotFound(item_id + " has no s3 object"@),
        ),
{
    let start = laws::fetch_start(cfg, item_id, out_path);
    lemma_one_more(start, replies);
    lemma_one_more(start, Seq::empty());
    lemma_last_step(start, replies);
    lemma_last_step(start, Seq::empty());
    if replies.len() > 0 {
        let s = effects::run(start, replies.drop_last()).0;
        assert(effects::run(start, replies) == s.respond(replies.last()));
    }
    let t = effects::run(start, replies).0;
    assert(forall|reply: ReplyView| #[trigger]
        effects::run(start, replies.push(reply)) == t.respond(reply));
    assert(forall|reply: ReplyView| #[trigger]
        effects::run(start, Seq::<ReplyView>::empty().push(reply)) == start.0.respond(reply));
}

/// A migration ends with the error of what it needs to begin; what fails of a single file does
/// not end it.
#[verifier::spinoff_prover]
#[verifier::rlimit(40)]
pub proof fn law_a_migration_ends_only_before_it_begins(
    inplace: Seq<char>,
    replies: Seq<ReplyView>,
    a: ActionView,
    m: Seq<char>,
    e: Fault,
)
    requires
        effects::run(laws::migrate_start(inplace), replies).1 == StepView::<
            MigrateResultView,
        >::Ask(a),
    ensures
        ({
            let start = laws::migrate_start(inplace);
            let ends = |reply: ReplyView, f: Fault| ends_with(start, replies, reply, f);
            let told = |reply: ReplyView| effects::run(start, replies.push(reply)).1;
            &&& a is OpenIndex || a is OpenStore ==> ends(ReplyView::Done(Err(e)), e)
            &&& a is LoadRecords ==> ends(ReplyView::Records(Err(e)), e)
            &&& a is FindMount ==> ends(
                ReplyView::Mount(None),
                Fault::InvalidConfig("Stow folder isn't mounted — is StowAgent running?"@),
            )
            &&& a is MirrorItem ==> told(ReplyView::Text(Err(e))) is Ask
            &&& a is Rename ==> told(ReplyView::Wrote(Err(m))) is Ask
            &&& a is MakeLink ==> told(ReplyView::Wrote(Err(m))) is Ask || told(
                ReplyView::Wrote(Err(m)),
            )->End_0 is Ok
        }),
{
    let start = laws::migrate_start(inplace);
    lemma_one_more(start, replies);
    lemma_last_step(start, replies);
    if replies.len() > 0 {
        let s = effects::run(start, replies.drop_last()).0;
        assert(effects::run(start, replies) == s.respond(replies.last()));
    }
    let t = effects::run(start, replies).0;
    assert(forall|reply: ReplyView| #[trigger]
        effects::run(start, replies.push(reply)) == t.respond(reply));
}

} // verus!

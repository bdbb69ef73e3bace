//! Laws of share links: what is published, under which name, and what is recorded and
//! reported of it.

use vstd::prelude::*;

use crate::config::ConfigView;
use crate::effects;
use crate::effects::{ActionView, ReplyView, StepView};
use crate::error::Fault;
use crate::index::{RecordView, ShareRowView};
use crate::laws;
use crate::links;
use crate::paths;
use crate::placeholder::ProbeView;
use crate::provider;
use crate::provider::Item;
use crate::s3::RemoteView;
use crate::share;
use crate::share::{SharePhase, ShareResultView, ShareView};

verus! {

spec fn has_kind(p: SharePhase) -> bool {
    !(p is Node || p is Over)
}

spec fn has_token(p: SharePhase) -> bool {
    has_kind(p) && !(p is Token)
}

spec fn has_source(p: SharePhase) -> bool {
    p is Public || p is Copy || p is Head || p is Store || p is Time || p is Save
}

/// Whether the object under `key` is one in the bucket that a shared file was found to have: by
/// the record of an offloaded file, or by its item in the Stow folder.
pub open spec fn is_stored_as(
    start: (ShareView, StepView<ShareResultView>),
    replies: Seq<ReplyView>,
    key: Seq<char>,
    size: i64,
) -> bool {
    ||| exists|rec: RecordView, found: ProbeView|
        #[trigger] effects::happened(
            start,
            replies,
            ActionView::LoadRecord { path: start.0.path },
            ReplyView::Record(Ok(Some(rec))),
        ) && #[trigger] effects::happened(
            start,
            replies,
            ActionView::Probe { path: start.0.path },
            ReplyView::Probed(found),
        ) && found.placeholder(start.0.inplace) == Ok::<bool, Fault>(true) && rec.s3_key == key
            && rec.size == size
    ||| exists|items: Seq<Item>|
        #[trigger] effects::happened(
            start,
            replies,
            ActionView::LoadItems,
            ReplyView::Items(Ok(items)),
        ) && is_item_at(items, start.0.path, key, size)
}

/// Whether the item at a path in the Stow folder is a file of that size, with its content
/// under `key`.
pub open spec fn is_item_at(items: Seq<Item>, path: Seq<char>, key: Seq<char>, size: i64) -> bool {
    &&& paths::relative(path) is Some
    &&& ({
        let it = share::item_below(items, provider::ROOT@, paths::relative(path)->0);
        &&& it is Some
        &&& !it->0.is_folder
        &&& it->0.s3_key is Some
        &&& it->0.s3_key->0@ == key
        &&& it->0.size == size
    })
}

/// Whether a shared folder was packed into `data`, with so many files, or a shared file was
/// read as `data`.
pub open spec fn is_content(
    start: (ShareView, StepView<ShareResultView>),
    replies: Seq<ReplyView>,
    is_dir: bool,
    data: Seq<u8>,
    file_count: usize,
) -> bool {
    if is_dir {
        effects::happened(
            start,
            replies,
            ActionView::ZipTree { path: start.0.path },
            ReplyView::Zipped(Ok((data, file_count))),
        )
    } else {
        file_count == 1 && effects::happened(
            start,
            replies,
            ActionView::ReadFile { path: start.0.path },
            ReplyView::File(Ok(data)),
        )
    }
}

proof fn lemma_source_grows(
    start: (ShareView, StepView<ShareResultView>),
    replies: Seq<ReplyView>,
    key: Seq<char>,
    size: i64,
)
    requires
        replies.len() > 0,
        is_stored_as(start, replies.drop_last(), key, size),
    ensures
        is_stored_as(start, replies, key, size),
{
    let front = replies.drop_last();
    effects::lemma_happened(start, replies);
    if exists|rec: RecordView, found: ProbeView|
        #[trigger] effects::happened(
            start,
            front,
            ActionView::LoadRecord { path: start.0.path },
            ReplyView::Record(Ok(Some(rec))),
        ) && #[trigger] effects::happened(
            start,
            front,
            ActionView::Probe { path: start.0.path },
            ReplyView::Probed(found),
        ) && found.placeholder(start.0.inplace) == Ok::<bool, Fault>(true) && rec.s3_key == key
            && rec.size == size {
        let (rec, found) = choose|rec: RecordView, found: ProbeView|
            #[trigger] effects::happened(
                start,
                front,
                ActionView::LoadRecord { path: start.0.path },
                ReplyView::Record(Ok(Some(rec))),
            ) && #[trigger] effects::happened(
                start,
                front,
                ActionView::Probe { path: start.0.path },
                ReplyView::Probed(found),
            ) && found.placeholder(start.0.inplace) == Ok::<bool, Fault>(true) && rec.s3_key == key
                && rec.size == size;
        assert(effects::happened(
            start,
            replies,
            ActionView::LoadRecord { path: start.0.path },
            ReplyView::Record(Ok(Some(rec))),
        ));
        assert(effects::happened(
            start,
            replies,
            ActionView::Probe { path: start.0.path },
            ReplyView::Probed(found),
        ));
    } else {
        let items = choose|items: Seq<Item>|
            #[trigger] effects::happened(
                start,
                front,
                ActionView::LoadItems,
                ReplyView::Items(Ok(items)),
            ) && is_item_at(items, start.0.path, key, size);
        assert(effects::happened(
            start,
            replies,
            ActionView::LoadItems,
            ReplyView::Items(Ok(items)),
        ));
    }
}

/// Where the content of a share comes from, once that is known.
spec fn source_known(
    start: (ShareView, StepView<ShareResultView>),
    replies: Seq<ReplyView>,
    s: ShareView,
) -> bool {
    &&& s.name == (if s.is_dir {
        paths::last_name(s.path) + ".zip"@
    } else {
        paths::last_name(s.path)
    })
    &&& match s.from {
        Some(key) => !s.is_dir && s.file_count == 1 && is_stored_as(start, replies, key, s.size),
        None => exists|data: Seq<u8>|
            #[trigger] is_content(start, replies, s.is_dir, data, s.file_count) && s.size
                == data.len() as i64 && (s.phase is Public || s.phase is Head ==> s.data == data),
    }
}

/// Whether a path was found to hold no placeholder.
pub open spec fn in_plain_sight(
    start: (ShareView, StepView<ShareResultView>),
    replies: Seq<ReplyView>,
) -> bool {
    exists|found: ProbeView|
        #[trigger] effects::happened(
            start,
            replies,
            ActionView::Probe { path: start.0.path },
            ReplyView::Probed(found),
        ) && found.placeholder(start.0.inplace) == Ok::<bool, Fault>(false)
}

/// Whether a file has to be read from disk to be shared: it is no placeholder, and either lies
/// outside the Stow folder or has no item with content there.
pub open spec fn is_read_from_disk(
    start: (ShareView, StepView<ShareResultView>),
    replies: Seq<ReplyView>,
) -> bool {
    &&& in_plain_sight(start, replies)
    &&& !paths::in_stow_folder(start.0.path) || exists|items: Seq<Item>|
        #[trigger] effects::happened(
            start,
            replies,
            ActionView::LoadItems,
            ReplyView::Items(Ok(items)),
        ) && forall|key: Seq<char>, size: i64|
            !#[trigger] is_item_at(items, start.0.path, key, size)
}

/// What is known of a share in each phase.
spec fn share_known(
    path: Seq<char>,
    cfg: ConfigView,
    inplace: Seq<char>,
    replies: Seq<ReplyView>,
) -> bool {
    let start = laws::share_start(path, cfg, inplace);
    let (s, step) = effects::run(start, replies);
    let ask = |a: ActionView| StepView::<ShareResultView>::Ask(a);
    let at = cfg.remote();
    &&& s.path == path && s.cfg == cfg && s.inplace == inplace
    &&& s.phase is Node ==> replies.len() == 0
    &&& has_kind(s.phase) ==> replies.len() >= 1 && replies[0] == ReplyView::Kind(Ok(s.is_dir))
    &&& s.phase is Token ==> replies.len() == 1 && step == ask(ActionView::RandomBytes { count: 16 })
    &&& has_token(s.phase) ==> replies.len() >= 2 && replies[1] is Random && replies[1]->Random_0 is Ok
        && s.token == links::hex_of(replies[1]->Random_0->Ok_0)
    &&& s.phase is Zip ==> s.is_dir && step == ask(ActionView::ZipTree { path })
    &&& s.phase is Probe ==> !s.is_dir && step == ask(ActionView::Probe { path })
    &&& s.phase is Record ==> !s.is_dir && step == ask(ActionView::LoadRecord { path })
    &&& s.phase is Record ==> exists|found: ProbeView|
        #[trigger] effects::happened(
            start,
            replies,
            ActionView::Probe { path },
            ReplyView::Probed(found),
        ) && found.placeholder(inplace) == Ok::<bool, Fault>(true)
    &&& s.phase is Items ==> !s.is_dir && step == ask(ActionView::LoadItems)
    &&& s.phase is Items ==> in_plain_sight(start, replies)
    &&& s.phase is Read ==> !s.is_dir && step == ask(ActionView::ReadFile { path })
        && is_read_from_disk(start, replies)
    &&& has_source(s.phase) ==> source_known(start, replies, s)
    &&& s.phase is Copy ==> s.from is Some && step == ask(
        ActionView::CopyObject { at, from: s.from->0, key: s.key() },
    )
    &&& s.phase is Head ==> s.from is None
    &&& s.phase is Store ==> {
        &&& s.from is None
        &&& step is Ask
        &&& step->Ask_0 is StoreObject
        &&& step->Ask_0->StoreObject_at == at
        &&& step->Ask_0->StoreObject_key == s.key()
        &&& is_content(start, replies, s.is_dir, step->Ask_0->StoreObject_data, s.file_count)
    }
    &&& s.phase is Time ==> step == ask(ActionView::Clock)
    &&& s.phase is Save ==> {
        &&& replies.last() is Time
        &&& step == ask(
            ActionView::SaveShare {
                row: ShareRowView {
                    token: s.token,
                    source: path,
                    s3_key: links::key_of_share(s.token, s.name),
                    url: links::url_of_share(cfg.bucket, cfg.region, s.token, s.name),
                    size: s.size,
                    is_folder: s.is_dir,
                    created_at: replies.last()->Time_0,
                },
            },
        )
        &&& effects::run(start, replies.drop_last()).1 == ask(ActionView::Clock)
        &&& replies.len() > 0
    }
    &&& s.phase is Over <==> step is End
    &&& step matches StepView::Ask(a) ==> {
        &&& a is CopyObject ==> s.phase is Copy
        &&& a is StoreObject ==> s.phase is Store
        &&& a is SaveShare ==> s.phase is Save
        &&& a is RandomBytes ==> s.phase is Token
        &&& a is ReadFile ==> s.phase is Read
    }
    &&& step matches StepView::End(Ok(res)) ==> reported_as(start, replies, res)
}

/// Whether a result is what was recorded last.
spec fn reported_as(
    start: (ShareView, StepView<ShareResultView>),
    replies: Seq<ReplyView>,
    res: ShareResultView,
) -> bool {
    &&& replies.len() >= 2
    &&& replies[0] == ReplyView::Kind(Ok(res.is_folder))
    &&& replies[1] is Random
    &&& replies[1]->Random_0 is Ok
    &&& res.token == links::hex_of(replies[1]->Random_0->Ok_0)
    &&& res.path == start.0.path
    &&& replies.last() == ReplyView::Done(Ok(()))
    &&& effects::run(start, replies.drop_last()).1 is Ask
    &&& effects::run(start, replies.drop_last()).1->Ask_0 is SaveShare
    &&& ({
        let row = effects::run(start, replies.drop_last()).1->Ask_0->SaveShare_row;
        &&& row.token == res.token
        &&& row.source == res.path
        &&& row.url == res.url
        &&& row.size == res.size
        &&& row.is_folder == res.is_folder
    })
    &&& !res.is_folder ==> res.file_count == 1
    &&& res.is_folder ==> exists|data: Seq<u8>|
        #[trigger] is_content(start, replies, true, data, res.file_count) && res.size
            == data.len() as i64
}

proof fn lemma_content_grows(
    start: (ShareView, StepView<ShareResultView>),
    replies: Seq<ReplyView>,
)
    requires
        replies.len() > 0,
    ensures
        forall|is_dir: bool, data: Seq<u8>, n: usize|
            is_content(start, replies.drop_last(), is_dir, data, n) ==> #[trigger] is_content(
                start,
                replies,
                is_dir,
                data,
                n,
            ),
{
    effects::lemma_happened(start, replies);
}

/// What one reply does to a share.
spec fn moves_on(s: ShareView, reply: ReplyView) -> bool {
    let (t, next) = s.respond(reply);
    let ask = |a: ActionView| StepView::<ShareResultView>::Ask(a);
    let at = s.cfg.remote();
    &&& t.path == s.path && t.cfg == s.cfg && t.inplace == s.inplace
    &&& !(t.phase is Node)
    &&& has_kind(t.phase) && !(t.phase is Token) ==> t.is_dir == s.is_dir && has_kind(s.phase)
    &&& t.phase is Token ==> s.phase is Node && reply == ReplyView::Kind(Ok(t.is_dir)) && next
        == ask(ActionView::RandomBytes { count: 16 })
    &&& t.phase is Index ==> s.phase is Token && reply is Random && reply->Random_0 is Ok && t.token
        == links::hex_of(reply->Random_0->Ok_0)
    &&& has_token(t.phase) && !(t.phase is Index) ==> has_token(s.phase) && t.token == s.token
    &&& t.phase is Zip ==> s.is_dir && next == ask(ActionView::ZipTree { path: s.path })
    &&& t.phase is Probe ==> !s.is_dir && next == ask(ActionView::Probe { path: s.path })
    &&& t.phase is Record ==> s.phase is Probe && reply is Probed
        && reply->Probed_0.placeholder(s.inplace) == Ok::<bool, Fault>(true) && next == ask(
        ActionView::LoadRecord { path: s.path },
    )
    &&& t.phase is Items ==> s.phase is Probe && next == ask(ActionView::LoadItems)
    &&& t.phase is Items ==> reply is Probed && reply->Probed_0.placeholder(s.inplace) == Ok::<
        bool,
        Fault,
    >(false) && paths::in_stow_folder(s.path)
    &&& t.phase is Read ==> next == ask(ActionView::ReadFile { path: s.path }) && {
        ||| s.phase is Probe && reply is Probed && reply->Probed_0.placeholder(s.inplace) == Ok::<
            bool,
            Fault,
        >(false) && !paths::in_stow_folder(s.path)
        ||| s.phase is Items && reply is Items && reply->Items_0 is Ok
            && forall|key: Seq<char>, size: i64|
            !#[trigger] is_item_at(reply->Items_0->Ok_0, s.path, key, size)
    }
    &&& t.phase is Public ==> {
        ||| s.phase is Zip && reply is Zipped && reply->Zipped_0 is Ok && t.from is None && t.name
            == paths::last_name(s.path) + ".zip"@ && t.data == reply->Zipped_0->Ok_0.0 && t.file_count
            == reply->Zipped_0->Ok_0.1 && t.size == t.data.len() as i64
        ||| s.phase is Read && reply is File && reply->File_0 is Ok && t.from is None && t.name
            == paths::last_name(s.path) && t.data == reply->File_0->Ok_0 && t.file_count == 1 && t.size
            == t.data.len() as i64
        ||| s.phase is Record && reply is Record && reply->Record_0 is Ok
            && reply->Record_0->Ok_0 is Some && t.from == Some(
            reply->Record_0->Ok_0->0.s3_key,
        ) && t.size == reply->Record_0->Ok_0->0.size && t.name == paths::last_name(s.path)
            && t.file_count == 1
        ||| s.phase is Items && reply is Items && reply->Items_0 is Ok && paths::relative(
            s.path,
        ) is Some && t.name == paths::last_name(s.path) && t.file_count == 1 && ({
            let it = share::item_below(
                reply->Items_0->Ok_0,
                provider::ROOT@,
                paths::relative(s.path)->0,
            );
            &&& it is Some
            &&& !it->0.is_folder
            &&& it->0.s3_key is Some
            &&& t.from == Some(it->0.s3_key->0@)
            &&& t.size == it->0.size
        })
    }
    &&& has_source(t.phase) && !(t.phase is Public) ==> has_source(s.phase) && t.from == s.from
        && t.name == s.name && t.size == s.size && t.file_count == s.file_count
    &&& t.phase is Copy ==> s.phase is Public && s.from is Some && next == ask(
        ActionView::CopyObject { at, from: s.from->0, key: s.key() },
    )
    &&& t.phase is Head ==> s.phase is Public && s.from is None && t.data == s.data
    &&& t.phase is Store ==> s.phase is Head && next == ask(
        ActionView::StoreObject { at, key: s.key(), data: s.data },
    )
    &&& t.phase is Time ==> next == ask(ActionView::Clock) && (s.phase is Copy || s.phase is Store
        || s.phase is Head)
    &&& t.phase is Save ==> s.phase is Time && reply is Time && next == ask(
        ActionView::SaveShare {
            row: ShareRowView {
                token: s.token,
                source: s.path,
                s3_key: links::key_of_share(s.token, s.name),
                url: links::url_of_share(s.cfg.bucket, s.cfg.region, s.token, s.name),
                size: s.size,
                is_folder: s.is_dir,
                created_at: reply->Time_0,
            },
        },
    )
    &&& t.phase is Over <==> next is End
    &&& next matches StepView::Ask(a) ==> {
        &&& a is CopyObject ==> t.phase is Copy
        &&& a is StoreObject ==> t.phase is Store
        &&& a is SaveShare ==> t.phase is Save
        &&& a is RandomBytes ==> t.phase is Token
        &&& a is ReadFile ==> t.phase is Read
    }
    &&& next matches StepView::End(Ok(res)) ==> {
        &&& s.phase is Save
        &&& reply is Done && reply->Done_0 is Ok
        &&& res.url == links::url_of_share(s.cfg.bucket, s.cfg.region, s.token, s.name)
        &&& res.token == s.token
        &&& res.path == s.path
        &&& res.size == s.size
        &&& res.is_folder == s.is_dir
        &&& res.file_count == s.file_count
    }
}

#[verifier::spinoff_prover]
#[verifier::rlimit(60)]
proof fn lemma_moves_on(s: ShareView, reply: ReplyView)
    ensures
        moves_on(s, reply),
{
}

#[verifier::spinoff_prover]
#[verifier::rlimit(100)]
proof fn lemma_share_known(
    path: Seq<char>,
    cfg: ConfigView,
    inplace: Seq<char>,
    replies: Seq<ReplyView>,
)
    ensures
        share_known(path, cfg, inplace, replies),
    decreases replies.len(),
{
    let start = laws::share_start(path, cfg, inplace);
    if replies.len() > 0 {
        let front = replies.drop_last();
        let reply = replies.last();
        lemma_share_known(path, cfg, inplace, front);
        effects::lemma_happened(start, replies);
        lemma_content_grows(start, replies);
        let (s, step) = effects::run(start, front);
        let (t, next) = s.respond(reply);
        assert(effects::run(start, replies) == (t, next));
        lemma_moves_on(s, reply);
        assert forall|i: int| 0 <= i < front.len() implies front[i] == replies[i] by {}
        if reply is Done && reply->Done_0 is Ok {
            assert(reply->Done_0->Ok_0 == ());
        }
        if t.phase is Record {
            assert(effects::happened(
                start,
                replies,
                ActionView::Probe { path },
                ReplyView::Probed(reply->Probed_0),
            ));
        }
        if t.phase is Items || (t.phase is Read && s.phase is Probe) {
            assert(effects::happened(
                start,
                replies,
                ActionView::Probe { path: start.0.path },
                ReplyView::Probed(reply->Probed_0),
            ));
            assert(in_plain_sight(start, replies));
        }
        if t.phase is Read && s.phase is Items {
            let found = choose|found: ProbeView|
                #[trigger] effects::happened(
                    start,
                    front,
                    ActionView::Probe { path: start.0.path },
                    ReplyView::Probed(found),
                ) && found.placeholder(start.0.inplace) == Ok::<bool, Fault>(false);
            assert(effects::happened(
                start,
                replies,
                ActionView::Probe { path: start.0.path },
                ReplyView::Probed(found),
            ));
            assert(in_plain_sight(start, replies));
            let items = reply->Items_0->Ok_0;
            assert(reply == ReplyView::Items(Ok(items)));
            assert(effects::happened(
                start,
                replies,
                ActionView::LoadItems,
                ReplyView::Items(Ok(items)),
            ));
            assert(is_read_from_disk(start, replies));
        }
        if t.phase is Public {
            if s.phase is Zip {
                assert(reply == ReplyView::Zipped(Ok((t.data, t.file_count))));
                assert(is_content(start, replies, true, t.data, t.file_count));
            } else if s.phase is Read {
                assert(reply == ReplyView::File(Ok(t.data)));
                assert(is_content(start, replies, false, t.data, 1));
            } else if s.phase is Record {
                let rec = reply->Record_0->Ok_0->0;
                assert(reply == ReplyView::Record(Ok(Some(rec))));
                assert(effects::happened(
                    start,
                    replies,
                    ActionView::LoadRecord { path: start.0.path },
                    ReplyView::Record(Ok(Some(rec))),
                ));
                let found = choose|found: ProbeView|
                    #[trigger] effects::happened(
                        start,
                        front,
                        ActionView::Probe { path },
                        ReplyView::Probed(found),
                    ) && found.placeholder(inplace) == Ok::<bool, Fault>(true);
                assert(effects::happened(
                    start,
                    replies,
                    ActionView::Probe { path: start.0.path },
                    ReplyView::Probed(found),
                ));
                assert(is_stored_as(start, replies, t.from->0, t.size));
            } else {
                let items = reply->Items_0->Ok_0;
                assert(reply == ReplyView::Items(Ok(items)));
                assert(effects::happened(
                    start,
                    replies,
                    ActionView::LoadItems,
                    ReplyView::Items(Ok(items)),
                ));
                assert(is_item_at(items, path, t.from->0, t.size));
                assert(is_stored_as(start, replies, t.from->0, t.size));
            }
            assert(source_known(start, replies, t));
        } else if has_source(t.phase) {
            if t.from is Some {
                lemma_source_grows(start, replies, t.from->0, t.size);
            } else {
                let data = choose|data: Seq<u8>|
                    #[trigger] is_content(start, front, s.is_dir, data, s.file_count) && s.size
                        == data.len() as i64 && (s.phase is Public || s.phase is Head ==> s.data
                        == data);
                assert(is_content(start, replies, t.is_dir, data, t.file_count));
            }
            assert(source_known(start, replies, t));
        }
        if next is End && next->End_0 is Ok {
            let res = next->End_0->Ok_0;
            if res.is_folder {
                assert(s.from is None);
                let data = choose|data: Seq<u8>|
                    #[trigger] is_content(start, front, s.is_dir, data, s.file_count) && s.size
                        == data.len() as i64;
                assert(is_content(start, replies, true, data, res.file_count));
            }
            assert(reported_as(start, replies, res));
        }
    }
}

/// What is recorded of a link fits together: its token is the sixteen random bytes that were
/// drawn for it, its key and its address are made of that token and of one and the same name,
/// the last one of the path, with `.zip` after it for a folder, and it was recorded at the
/// time that was read just before.
pub proof fn law_a_recorded_link_fits_together(
    path: Seq<char>,
    cfg: ConfigView,
    inplace: Seq<char>,
    replies: Seq<ReplyView>,
    row: ShareRowView,
)
    requires
        effects::run(laws::share_start(path, cfg, inplace), replies).1 == StepView::<
            ShareResultView,
        >::Ask(ActionView::SaveShare { row }),
    ensures
        replies.len() >= 3,
        row.source == path,
        replies[0] == ReplyView::Kind(Ok(row.is_folder)),
        replies[1] is Random,
        replies[1]->Random_0 is Ok,
        row.token == links::hex_of(replies[1]->Random_0->Ok_0),
        replies.last() == ReplyView::Time(row.created_at),
        ({
            let name = if row.is_folder {
                paths::last_name(path) + ".zip"@
            } else {
                paths::last_name(path)
            };
            &&& row.s3_key == "shares/"@ + row.token + "/"@ + name
            &&& row.url == links::url_of_share(cfg.bucket, cfg.region, row.token, name)
        }),
{
    lemma_share_known(path, cfg, inplace, replies);
    let s = effects::run(laws::share_start(path, cfg, inplace), replies).0;
    assert(links::key_of_share(s.token, s.name) =~= "shares/"@ + s.token + "/"@ + s.name);
}

/// A token is drawn from sixteen random bytes.
pub proof fn law_tokens_are_drawn_from_sixteen_bytes(
    path: Seq<char>,
    cfg: ConfigView,
    inplace: Seq<char>,
    replies: Seq<ReplyView>,
    count: usize,
)
    requires
        effects::run(laws::share_start(path, cfg, inplace), replies).1 == StepView::<
            ShareResultView,
        >::Ask(ActionView::RandomBytes { count }),
    ensures
        count == 16,
{
    lemma_share_known(path, cfg, inplace, replies);
}

/// What is copied to a link's object is the shared file's own content in the bucket: the
/// object of its record, where the path holds a placeholder, or that of its item, where the
/// path lies in the Stow folder.
pub proof fn law_a_shared_object_is_the_files_own(
    path: Seq<char>,
    cfg: ConfigView,
    inplace: Seq<char>,
    replies: Seq<ReplyView>,
    at: RemoteView,
    from: Seq<char>,
    key: Seq<char>,
)
    requires
        effects::run(laws::share_start(path, cfg, inplace), replies).1 == StepView::<
            ShareResultView,
        >::Ask(ActionView::CopyObject { at, from, key }),
    ensures
        at == cfg.remote(),
        replies[0] == ReplyView::Kind(Ok(false)),
        exists|size: i64| #[trigger]
            is_stored_as(laws::share_start(path, cfg, inplace), replies, from, size),
        key == "shares/"@ + links::hex_of(replies[1]->Random_0->Ok_0) + "/"@ + paths::last_name(
            path,
        ),
{
    lemma_share_known(path, cfg, inplace, replies);
    let s = effects::run(laws::share_start(path, cfg, inplace), replies).0;
    assert(is_stored_as(laws::share_start(path, cfg, inplace), replies, from, s.size));
    assert(links::key_of_share(s.token, s.name) =~= "shares/"@ + s.token + "/"@ + s.name);
}

/// A shared file is read from disk only where its content is not in the bucket: never where the
/// path holds a placeholder, and in the Stow folder only where no item with content is there.
pub proof fn law_what_is_in_the_bucket_is_not_read(
    path: Seq<char>,
    cfg: ConfigView,
    inplace: Seq<char>,
    replies: Seq<ReplyView>,
    from: Seq<char>,
)
    requires
        effects::run(laws::share_start(path, cfg, inplace), replies).1 == StepView::<
            ShareResultView,
        >::Ask(ActionView::ReadFile { path: from }),
    ensures
        from == path,
        is_read_from_disk(laws::share_start(path, cfg, inplace), replies),
{
    lemma_share_known(path, cfg, inplace, replies);
}

/// What is uploaded to a link's object is what was shared: the bytes that were read from the
/// file, or the archive that the folder was packed into.
pub proof fn law_shared_bytes_are_the_files_own(
    path: Seq<char>,
    cfg: ConfigView,
    inplace: Seq<char>,
    replies: Seq<ReplyView>,
    at: RemoteView,
    key: Seq<char>,
    data: Seq<u8>,
)
    requires
        effects::run(laws::share_start(path, cfg, inplace), replies).1 == StepView::<
            ShareResultView,
        >::Ask(ActionView::StoreObject { at, key, data }),
    ensures
        at == cfg.remote(),
        replies[0] is Kind,
        replies[0]->Kind_0 is Ok,
        ({
            let start = laws::share_start(path, cfg, inplace);
            if replies[0]->Kind_0->Ok_0 {
                &&& key == "shares/"@ + links::hex_of(replies[1]->Random_0->Ok_0) + "/"@ + (
                paths::last_name(path) + ".zip"@)
                &&& exists|n: usize|
                    #[trigger] effects::happened(
                        start,
                        replies,
                        ActionView::ZipTree { path },
                        ReplyView::Zipped(Ok((data, n))),
                    )
            } else {
                &&& key == "shares/"@ + links::hex_of(replies[1]->Random_0->Ok_0) + "/"@
                    + paths::last_name(path)
                &&& effects::happened(
                    start,
                    replies,
                    ActionView::ReadFile { path },
                    ReplyView::File(Ok(data)),
                )
            }
        }),
{
    lemma_share_known(path, cfg, inplace, replies);
    let start = laws::share_start(path, cfg, inplace);
    let s = effects::run(start, replies).0;
    assert(links::key_of_share(s.token, s.name) =~= "shares/"@ + s.token + "/"@ + s.name);
    assert(is_content(start, replies, s.is_dir, data, s.file_count));
}

/// What a share reports is what was recorded, which was the last thing it did: the address,
/// the token, the path, the size, and whether it is a folder. A file counts as one file, a
/// folder as many as were packed.
pub proof fn law_a_share_reports_what_it_recorded(
    path: Seq<char>,
    cfg: ConfigView,
    inplace: Seq<char>,
    replies: Seq<ReplyView>,
    res: ShareResultView,
)
    requires
        effects::run(laws::share_start(path, cfg, inplace), replies).1 == StepView::<
            ShareResultView,
        >::End(Ok(res)),
    ensures
        res.path == path,
        replies.last() == ReplyView::Done(Ok(())),
        exists|row: ShareRowView|
            effects::run(laws::share_start(path, cfg, inplace), replies.drop_last()).1 == StepView::<
                ShareResultView,
            >::Ask(ActionView::SaveShare { row }) && row.token == res.token && #[trigger] row.url
                == res.url && row.source == path && row.size == res.size && row.is_folder
                == res.is_folder,
        !res.is_folder ==> res.file_count == 1,
        res.is_folder ==> exists|data: Seq<u8>|
            #[trigger] effects::happened(
                laws::share_start(path, cfg, inplace),
                replies,
                ActionView::ZipTree { path },
                ReplyView::Zipped(Ok((data, res.file_count))),
            ) && res.size == data.len() as i64,
{
    lemma_share_known(path, cfg, inplace, replies);
    let start = laws::share_start(path, cfg, inplace);
    let row = effects::run(start, replies.drop_last()).1->Ask_0->SaveShare_row;
    assert(row.url == res.url);
    if res.is_folder {
        let data = choose|data: Seq<u8>|
            #[trigger] is_content(start, replies, true, data, res.file_count) && res.size
                == data.len() as i64;
        assert(effects::happened(
            start,
            replies,
            ActionView::ZipTree { path },
            ReplyView::Zipped(Ok((data, res.file_count))),
        ));
    }
}

/// The item at the end of a way has the last name of the way, and lies in the item at the end
/// of the way before that; on a way of one name it lies where the way begins.
pub proof fn law_items_are_found_name_by_name(
    items: Seq<Item>,
    parent: Seq<char>,
    way: Seq<Seq<char>>,
)
    requires
        share::item_below(items, parent, way) is Some,
    ensures
        way.len() > 0,
        ({
            let it = share::item_below(items, parent, way)->0;
            &&& items.contains(it)
            &&& it.filename@ == way.last()
            &&& way.len() == 1 ==> it.parent_id@ == parent
            &&& way.len() > 1 ==> {
                let up = share::item_below(items, parent, way.drop_last());
                up is Some && it.parent_id@ == up->0.item_id@
            }
        }),
    decreases way.len(),
{
    lemma_child(items, parent, way[0]);
    let k = share::child(items, parent, way[0])->0;
    if way.len() > 1 {
        let rest = way.drop_first();
        law_items_are_found_name_by_name(items, k.item_id@, rest);
        assert(rest.last() == way.last());
        let front = way.drop_last();
        assert(front[0] == way[0]);
        if way.len() > 2 {
            assert(front.drop_first() =~= rest.drop_last());
        }
    }
}

/// An item that lies in a folder under a name is found there: the first such one.
pub proof fn law_present_items_are_found(items: Seq<Item>, parent: Seq<char>, i: int)
    requires
        0 <= i < items.len(),
        items[i].parent_id@ == parent,
        forall|j: int|
            0 <= j < i ==> (#[trigger] items[j]).parent_id@ != parent || items[j].filename@
                != items[i].filename@,
    ensures
        share::item_below(items, parent, seq![items[i].filename@]) == Some(items[i]),
{
    let name = items[i].filename@;
    assert(share::is_child(items, parent, name, i));
    lemma_child(items, parent, name);
    assert(share::is_first_child(items, parent, name, i));
    let c = choose|c: int| share::is_first_child(items, parent, name, c);
    assert(c == i);
    assert(seq![name][0] == name);
}

proof fn lemma_child(items: Seq<Item>, parent: Seq<char>, name: Seq<char>)
    ensures
        share::child(items, parent, name) matches Some(k) ==> items.contains(k) && k.parent_id@
            == parent && k.filename@ == name,
{
    if exists|i: int| share::is_child(items, parent, name, i) {
        let i = choose|i: int| share::is_child(items, parent, name, i);
        lemma_first_child(items, parent, name, i);
        let c = choose|c: int| share::is_first_child(items, parent, name, c);
        assert(items.contains(items[c]));
    }
}

proof fn lemma_first_child(items: Seq<Item>, parent: Seq<char>, name: Seq<char>, i: int)
    requires
        share::is_child(items, parent, name, i),
    ensures
        exists|c: int| share::is_first_child(items, parent, name, c),
    decreases i,
{
    if exists|j: int| 0 <= j < i && share::is_child(items, parent, name, j) {
        let j = choose|j: int| 0 <= j < i && share::is_child(items, parent, name, j);
        lemma_first_child(items, parent, name, j);
    } else {
        assert(share::is_first_child(items, parent, name, i));
    }
}

/// What a revocation gives back is the link that was recorded under the token; where there is
/// none, nothing is deleted, and that is said.
pub proof fn law_a_revocation_gives_back_the_link(
    token: Seq<char>,
    cfg: ConfigView,
    replies: Seq<ReplyView>,
    row: ShareRowView,
)
    requires
        effects::run(laws::unshare_start(token, cfg), replies).1 == StepView::<ShareRowView>::End(
            Ok(row),
        ),
    ensures
        replies.len() == 3,
        replies[0] == ReplyView::Share(Ok(Some(row))),
        replies[1] == ReplyView::Done(Ok(())),
        replies[2] == ReplyView::Done(Ok(())),
        effects::run(laws::unshare_start(token, cfg), replies.take(1)).1 == StepView::<
            ShareRowView,
        >::Ask(ActionView::DeleteObject { at: cfg.remote(), key: row.s3_key }),
        effects::run(laws::unshare_start(token, cfg), replies.take(2)).1 == StepView::<
            ShareRowView,
        >::Ask(ActionView::ForgetShare { token }),
{
    let start = laws::unshare_start(token, cfg);
    lemma_unshare_known(token, cfg, replies);
    let front = replies.drop_last();
    lemma_unshare_known(token, cfg, front);
    assert(effects::run(start, replies) == effects::run(start, front).0.respond(replies.last()));
    lemma_unshare_known(token, cfg, front.drop_last());
    assert(replies.take(2) =~= front);
    assert(replies.take(1) =~= front.drop_last());
    assert(replies[2]->Done_0->Ok_0 == ());
    assert(replies[1]->Done_0->Ok_0 == ());
}

spec fn unshare_known(token: Seq<char>, cfg: ConfigView, replies: Seq<ReplyView>) -> bool {
    let (s, step) = effects::run(laws::unshare_start(token, cfg), replies);
    let ask = |a: ActionView| StepView::<ShareRowView>::Ask(a);
    &&& s.token == token && s.cfg == cfg
    &&& s.phase is Row ==> replies.len() == 0
    &&& s.phase is Delete ==> replies.len() == 1 && s.row is Some && replies[0]
        == ReplyView::Share(Ok(s.row)) && step == ask(
        ActionView::DeleteObject { at: cfg.remote(), key: s.row->0.s3_key },
    )
    &&& s.phase is Forget ==> replies.len() == 2 && s.row is Some && replies[0]
        == ReplyView::Share(Ok(s.row)) && replies[1] is Done && replies[1]->Done_0 is Ok && step
        == ask(ActionView::ForgetShare { token }) && effects::run(
        laws::unshare_start(token, cfg),
        replies.drop_last(),
    ).0.phase is Delete
    &&& step matches StepView::End(Ok(row)) ==> replies.len() == 3 && replies[0]
        == ReplyView::Share(Ok(Some(row))) && replies[2] is Done && replies[2]->Done_0 is Ok
        && effects::run(laws::unshare_start(token, cfg), replies.drop_last()).0.phase is Forget
}

proof fn lemma_unshare_known(token: Seq<char>, cfg: ConfigView, replies: Seq<ReplyView>)
    ensures
        unshare_known(token, cfg, replies),
    decreases replies.len(),
{
    let start = laws::unshare_start(token, cfg);
    if replies.len() > 0 {
        let front = replies.drop_last();
        lemma_unshare_known(token, cfg, front);
        let (s, step) = effects::run(start, front);
        let (t, next) = s.respond(replies.last());
        assert(effects::run(start, replies) == (t, next));
        assert forall|i: int| 0 <= i < front.len() implies front[i] == replies[i] by {}
    }
}

} // verus!

//! Laws of the items of the Stow folder: what is stored of a new item, of one whose content is
//! changed, and what fetching one does.

use vstd::prelude::*;

use crate::config::ConfigView;
use crate::effects;
use crate::effects::{ActionView, Flow, ReplyView, StepView};
use crate::folder;
use crate::folder::{CreatePhase, CreateView, UpdateView};
use crate::hash;
use crate::laws;
use crate::provider::ItemView;
use crate::text;
use crate::text::Separator;

verus! {

/// The first replies of a run are those of the run without its last reply.
proof fn lemma_takes<F: Flow>(start: (F, StepView<F::Out>), replies: Seq<ReplyView>)
    requires
        replies.len() > 0,
    ensures
        forall|k: int|
            0 <= k < replies.len() ==> #[trigger] replies.take(k) == replies.drop_last().take(k),
        replies.take(replies.len() - 1) == replies.drop_last(),
        forall|k: int| 0 <= k < replies.len() - 1 ==> #[trigger] replies[k] == replies.drop_last()[k],
{
    assert forall|k: int| 0 <= k < replies.len() implies #[trigger] replies.take(k)
        == replies.drop_last().take(k) by {
        assert(replies.take(k) =~= replies.drop_last().take(k));
    }
    assert(replies.take(replies.len() - 1) =~= replies.drop_last());
}

// ---- creating -----------------------------------------------------------------------

/// A creation at its start.
pub open spec fn create_start(
    cfg: ConfigView,
    nonce: u64,
    parent_id: Seq<char>,
    filename: Seq<char>,
    is_folder: bool,
    temp_path: Seq<char>,
) -> (CreateView, StepView<ItemView>) {
    (
        CreateView::fresh(cfg, nonce, parent_id, filename, is_folder, temp_path),
        StepView::Ask(ActionView::OpenStore),
    )
}

spec fn is_named(p: CreatePhase) -> bool {
    p is Read || p is Head || p is Upload || p is Modified || p is Accessed || p is Save
}

/// Whether bytes are in the bucket under the key of their hash: they were found there, or were
/// uploaded.
pub open spec fn is_kept<F: Flow>(
    start: (F, StepView<F::Out>),
    replies: Seq<ReplyView>,
    cfg: ConfigView,
    data: Seq<u8>,
) -> bool {
    let key = "fp/"@ + hash::blake3_hex(data);
    ||| effects::happened(
        start,
        replies,
        ActionView::HeadObject { at: cfg.remote(), key },
        ReplyView::Found(Ok(true)),
    )
    ||| effects::happened(
        start,
        replies,
        ActionView::StoreObject { at: cfg.remote(), key, data },
        ReplyView::Done(Ok(())),
    )
}

/// What is known of a creation in each phase.
spec fn create_known(
    start: (CreateView, StepView<ItemView>),
    replies: Seq<ReplyView>,
) -> bool {
    let (s, step) = effects::run(start, replies);
    let f = start.0;
    let ask = |a: ActionView| StepView::<ItemView>::Ask(a);
    let n = replies.len() as int;
    let late = s.phase is Modified || s.phase is Accessed || s.phase is Save;
    &&& s.cfg == f.cfg && s.nonce == f.nonce && s.parent_id == f.parent_id && s.filename == f.filename
        && s.is_folder == f.is_folder && s.temp_path == f.temp_path
    &&& s.phase is Store ==> n == 0
    &&& s.phase is Id ==> n == 1
    &&& s.phase is Store || s.phase is Id ==> s.size == 0
    &&& is_named(s.phase) ==> n >= 2 && replies[1] is Time && s.item_id == folder::id_of(
        replies[1]->Time_0,
        f.nonce,
    )
    &&& is_named(s.phase) && f.is_folder ==> late && s.size == 0
    &&& s.phase is Read ==> n == 2 && s.size == 0 && step == ask(
        ActionView::ReadFile { path: f.temp_path },
    )
    &&& s.phase is Head ==> n == 3 && replies[2] == ReplyView::File(Ok(s.data)) && s.size
        == s.data.len() as i64 && s.hash == hash::blake3_hex(s.data) && step == ask(
        ActionView::HeadObject { at: f.cfg.remote(), key: "fp/"@ + s.hash },
    )
    &&& s.phase is Upload ==> n == 4 && replies[2] is File && replies[2]->File_0 is Ok && ({
        let data = replies[2]->File_0->Ok_0;
        &&& s.size == data.len() as i64
        &&& s.hash == hash::blake3_hex(data)
        &&& step == ask(
            ActionView::StoreObject { at: f.cfg.remote(), key: "fp/"@ + s.hash, data },
        )
    })
    &&& late && !f.is_folder ==> n >= 4 && replies[2] is File && replies[2]->File_0 is Ok && ({
        let data = replies[2]->File_0->Ok_0;
        &&& s.size == data.len() as i64
        &&& s.hash == hash::blake3_hex(data)
        &&& is_kept(start, replies, f.cfg, data)
    })
    &&& s.phase is Modified || s.phase is Accessed ==> step == ask(ActionView::Clock)
    &&& s.phase is Accessed ==> n >= 1 && replies[n - 1] == ReplyView::Time(s.modified_at)
    &&& s.phase is Save ==> n >= 2 && replies[n - 2] == ReplyView::Time(s.modified_at) && replies[n
        - 1] == ReplyView::Time(s.last_access) && step == ask(
        ActionView::SaveItem { item: s.item() },
    )
    &&& s.phase is Over <==> step is End
    &&& step matches StepView::Ask(a) ==> (a is SaveItem ==> s.phase is Save)
    &&& step matches StepView::End(Ok(item)) ==> n >= 1 && replies[n - 1] == ReplyView::Done(
        Ok(()),
    ) && effects::run(start, replies.drop_last()).1 == ask(ActionView::SaveItem { item })
}

#[verifier::spinoff_prover]
#[verifier::rlimit(100)]
proof fn lemma_create_known(
    cfg: ConfigView,
    nonce: u64,
    parent_id: Seq<char>,
    filename: Seq<char>,
    is_folder: bool,
    temp_path: Seq<char>,
    replies: Seq<ReplyView>,
)
    ensures
        create_known(
            create_start(cfg, nonce, parent_id, filename, is_folder, temp_path),
            replies,
        ),
    decreases replies.len(),
{
    let start = create_start(cfg, nonce, parent_id, filename, is_folder, temp_path);
    if replies.len() > 0 {
        let front = replies.drop_last();
        let reply = replies.last();
        lemma_create_known(cfg, nonce, parent_id, filename, is_folder, temp_path, front);
        effects::lemma_happened(start, replies);
        lemma_takes(start, replies);
        let (s, step) = effects::run(start, front);
        let (t, next) = s.respond(reply);
        assert(effects::run(start, replies) == (t, next));
        if reply is Done && reply->Done_0 is Ok {
            assert(reply->Done_0->Ok_0 == ());
        }
        if t.phase is Modified && s.phase is Head {
            assert(effects::happened(
                start,
                replies,
                ActionView::HeadObject { at: cfg.remote(), key: "fp/"@ + s.hash },
                ReplyView::Found(Ok(true)),
            ));
            assert(is_kept(start, replies, cfg, s.data));
        }
        if t.phase is Modified && s.phase is Upload {
            let data = replies[2]->File_0->Ok_0;
            assert(effects::happened(
                start,
                replies,
                ActionView::StoreObject { at: cfg.remote(), key: "fp/"@ + s.hash, data },
                ReplyView::Done(Ok(())),
            ));
            assert(is_kept(start, replies, cfg, data));
        }
        if s.phase is Save && next is End && next->End_0 is Ok {
            assert(next->End_0->Ok_0 == s.item());
        }
    }
}

/// What is stored of a new item is what was asked for and what was read: its parent and its
/// name, an identifier made of the time and of the given number, the size and the hash of the
/// bytes at the given path, which are in the bucket under that hash, and the times that were
/// read last. It is the first version, and its bytes are on disk. A folder, or an item without
/// a file to read, has no content.
pub proof fn law_a_new_item_is_what_was_asked_for(
    cfg: ConfigView,
    nonce: u64,
    parent_id: Seq<char>,
    filename: Seq<char>,
    is_folder: bool,
    temp_path: Seq<char>,
    replies: Seq<ReplyView>,
    item: ItemView,
)
    requires
        effects::run(
            create_start(cfg, nonce, parent_id, filename, is_folder, temp_path),
            replies,
        ).1 == StepView::<ItemView>::Ask(ActionView::SaveItem { item }),
    ensures
        item.parent_id == parent_id,
        item.filename == filename,
        item.is_folder == (is_folder || temp_path.len() == 0),
        item.version == 1,
        !item.dataless,
        replies[1] is Time,
        item.item_id == "itm-"@ + text::dec(replies[1]->Time_0 as int) + "-"@ + text::dec(
            nonce as int,
        ),
        replies.len() >= 4,
        replies[replies.len() - 2] == ReplyView::Time(item.modified_at),
        replies[replies.len() - 1] == ReplyView::Time(item.last_access),
        item.is_folder ==> {
            &&& item.size == 0
            &&& item.hash is None
            &&& item.s3_key is None
            &&& item.content_type == "public.folder"@
        },
        !item.is_folder ==> {
            &&& replies[2] is File
            &&& replies[2]->File_0 is Ok
            &&& effects::run(
                create_start(cfg, nonce, parent_id, filename, is_folder, temp_path),
                replies.take(2),
            ).1 == StepView::<ItemView>::Ask(ActionView::ReadFile { path: temp_path })
            &&& item.size == replies[2]->File_0->Ok_0.len() as i64
            &&& item.hash == Some(hash::blake3_hex(replies[2]->File_0->Ok_0))
            &&& item.s3_key == Some("fp/"@ + hash::blake3_hex(replies[2]->File_0->Ok_0))
            &&& item.content_type == folder::type_of_file(filename)
            &&& is_kept(
                create_start(cfg, nonce, parent_id, filename, is_folder, temp_path),
                replies,
                cfg,
                replies[2]->File_0->Ok_0,
            )
        },
{
    let start = create_start(cfg, nonce, parent_id, filename, is_folder, temp_path);
    lemma_create_known(cfg, nonce, parent_id, filename, is_folder, temp_path, replies);
    let s = effects::run(start, replies).0;
    assert(folder::id_of(replies[1]->Time_0, nonce) =~= "itm-"@ + text::dec(
        replies[1]->Time_0 as int,
    ) + "-"@ + text::dec(nonce as int));
    lemma_create_length(cfg, nonce, parent_id, filename, is_folder, temp_path, replies);
    if !item.is_folder {
        lemma_read_at(cfg, nonce, parent_id, filename, is_folder, temp_path, replies);
    }
}

/// A creation that has its item to store was given four replies or more.
proof fn lemma_create_length(
    cfg: ConfigView,
    nonce: u64,
    parent_id: Seq<char>,
    filename: Seq<char>,
    is_folder: bool,
    temp_path: Seq<char>,
    replies: Seq<ReplyView>,
)
    ensures
        ({
            let s = effects::run(
                create_start(cfg, nonce, parent_id, filename, is_folder, temp_path),
                replies,
            ).0;
            &&& s.phase is Modified ==> replies.len() >= 2
            &&& s.phase is Accessed ==> replies.len() >= 3
            &&& s.phase is Save ==> replies.len() >= 4
        }),
    decreases replies.len(),
{
    let start = create_start(cfg, nonce, parent_id, filename, is_folder, temp_path);
    if replies.len() > 0 {
        let front = replies.drop_last();
        lemma_create_length(cfg, nonce, parent_id, filename, is_folder, temp_path, front);
        lemma_create_known(cfg, nonce, parent_id, filename, is_folder, temp_path, replies);
        assert(effects::run(start, replies) == effects::run(start, front).0.respond(
            replies.last(),
        ));
    }
}

/// The third reply of a creation from a file answers the request for its bytes.
proof fn lemma_read_at(
    cfg: ConfigView,
    nonce: u64,
    parent_id: Seq<char>,
    filename: Seq<char>,
    is_folder: bool,
    temp_path: Seq<char>,
    replies: Seq<ReplyView>,
)
    requires
        !(is_folder || temp_path.len() == 0),
    ensures
        ({
            let start = create_start(cfg, nonce, parent_id, filename, is_folder, temp_path);
            let s = effects::run(start, replies).0;
            s.phase is Head || s.phase is Upload || s.phase is Modified || s.phase is Accessed
                || s.phase is Save ==> replies.len() >= 3 && effects::run(
                start,
                replies.take(2),
            ).1 == StepView::<ItemView>::Ask(ActionView::ReadFile { path: temp_path })
        }),
    decreases replies.len(),
{
    let start = create_start(cfg, nonce, parent_id, filename, is_folder, temp_path);
    if replies.len() > 0 {
        let front = replies.drop_last();
        lemma_read_at(cfg, nonce, parent_id, filename, is_folder, temp_path, front);
        lemma_create_known(cfg, nonce, parent_id, filename, is_folder, temp_path, front);
        lemma_takes(start, replies);
        assert(effects::run(start, replies) == effects::run(start, front).0.respond(
            replies.last(),
        ));
        if effects::run(start, front).0.phase is Read {
            assert(replies.take(2) == front);
        }
    }
}

/// A creation gives back the item that it has stored, which was the last thing it did.
pub proof fn law_a_created_item_is_the_stored_one(
    cfg: ConfigView,
    nonce: u64,
    parent_id: Seq<char>,
    filename: Seq<char>,
    is_folder: bool,
    temp_path: Seq<char>,
    replies: Seq<ReplyView>,
    item: ItemView,
)
    requires
        effects::run(
            create_start(cfg, nonce, parent_id, filename, is_folder, temp_path),
            replies,
        ).1 == StepView::<ItemView>::End(Ok(item)),
    ensures
        replies.last() == ReplyView::Done(Ok(())),
        effects::run(
            create_start(cfg, nonce, parent_id, filename, is_folder, temp_path),
            replies.drop_last(),
        ).1 == StepView::<ItemView>::Ask(ActionView::SaveItem { item }),
{
    lemma_create_known(cfg, nonce, parent_id, filename, is_folder, temp_path, replies);
}

/// The extension of a file name is what follows its last dot, and the whole name where there
/// is no dot. The extensions that are known have their own content types, every other is data.
pub proof fn law_content_types_go_by_the_extension(stem: Seq<char>, ext: Seq<char>)
    requires
        !ext.contains('.'),
    ensures
        folder::extension(stem + "."@ + ext) == ext,
        folder::extension(ext) == ext,
        ext == "txt"@ ==> folder::type_of(ext) == "public.plain-text"@,
        ext == "pdf"@ ==> folder::type_of(ext) == "com.adobe.pdf"@,
        ext == "png"@ ==> folder::type_of(ext) == "public.png"@,
        ext == "jpg"@ || ext == "jpeg"@ ==> folder::type_of(ext) == "public.jpeg"@,
        ext == "mov"@ ==> folder::type_of(ext) == "com.apple.quicktime-movie"@,
        ext == "mp4"@ ==> folder::type_of(ext) == "public.mpeg-4"@,
        ext == "zip"@ ==> folder::type_of(ext) == "public.zip-archive"@,
        ext != "txt"@ && ext != "pdf"@ && ext != "png"@ && ext != "jpg"@ && ext != "jpeg"@ && ext
            != "mov"@ && ext != "mp4"@ && ext != "zip"@ ==> folder::type_of(ext)
            == "public.data"@,
{
    reveal_strlit(".");
    reveal_strlit("txt");
    reveal_strlit("pdf");
    reveal_strlit("png");
    reveal_strlit("jpg");
    reveal_strlit("jpeg");
    reveal_strlit("mov");
    reveal_strlit("mp4");
    reveal_strlit("zip");
    assert("txt"@[0] == 't' && "pdf"@[1] == 'd' && "png"@[1] == 'n' && "jpg"@[0] == 'j');
    assert("jpeg"@[0] == 'j' && "mov"@[0] == 'm' && "mp4"@[1] == 'p' && "zip"@[0] == 'z');
    assert("pdf"@[0] == 'p' && "png"@[0] == 'p' && "mov"@[1] == 'o' && "mp4"@[0] == 'm');
    let sep = Separator::Is('.');
    assert("."@ =~= seq!['.']);
    assert forall|i: int| 0 <= i < ext.len() implies !sep.accepts(#[trigger] ext[i]) by {
        assert(ext.contains(ext[i]));
    }
    text::law_unbroken_text_is_one_piece(ext, sep);
    text::law_separators_part_the_pieces(stem, '.', ext, sep);
    assert((text::split_at(stem, sep) + seq![ext]).last() == ext);
    assert(seq![ext].last() == ext);
}

// ---- changing -----------------------------------------------------------------------

/// What is known of a change in each phase.
spec fn update_known(start: (UpdateView, StepView<ItemView>), replies: Seq<ReplyView>) -> bool {
    let (s, step) = effects::run(start, replies);
    let f = start.0;
    let ask = |a: ActionView| StepView::<ItemView>::Ask(a);
    let n = replies.len() as int;
    let late = s.phase is Modified || s.phase is Accessed;
    &&& s.cfg == f.cfg && s.item_id == f.item_id && s.temp_path == f.temp_path
    &&& s.phase is Item ==> n == 0
    &&& !(s.phase is Item || s.phase is Over) ==> n >= 1 && s.item is Some && replies[0] is Item
        && replies[0]->Item_0 is Ok && replies[0]->Item_0->Ok_0 is Some
    &&& !(s.phase is Item || s.phase is Over || s.phase is Save) ==> replies[0] == ReplyView::Item(
        Ok(s.item),
    )
    &&& s.phase is Read ==> n == 1 && step == ask(ActionView::ReadFile { path: f.temp_path })
    &&& s.phase is Head ==> n == 2 && replies[1] == ReplyView::File(Ok(s.data)) && s.size
        == s.data.len() as i64 && s.hash == hash::blake3_hex(s.data) && step == ask(
        ActionView::HeadObject { at: f.cfg.remote(), key: "fp/"@ + s.hash },
    )
    &&& s.phase is Upload ==> n == 3 && replies[1] is File && replies[1]->File_0 is Ok && ({
        let data = replies[1]->File_0->Ok_0;
        &&& s.size == data.len() as i64
        &&& s.hash == hash::blake3_hex(data)
        &&& step == ask(
            ActionView::StoreObject { at: f.cfg.remote(), key: "fp/"@ + s.hash, data },
        )
    })
    &&& late || s.phase is Save ==> n >= 3 && replies[1] is File && replies[1]->File_0 is Ok && ({
        let data = replies[1]->File_0->Ok_0;
        &&& s.size == data.len() as i64
        &&& s.hash == hash::blake3_hex(data)
        &&& is_kept(start, replies, f.cfg, data)
    })
    &&& late ==> step == ask(ActionView::Clock)
    &&& s.phase is Accessed ==> replies[n - 1] == ReplyView::Time(s.modified_at)
    &&& s.phase is Save ==> n >= 2 && step is Ask && step->Ask_0 is SaveItem && s.item == Some(
        step->Ask_0->SaveItem_item,
    ) && ({
        let before = replies[0]->Item_0->Ok_0->0;
        let data = replies[1]->File_0->Ok_0;
        let item = step->Ask_0->SaveItem_item;
        is_changed(before, data, item) && replies[n - 2] == ReplyView::Time(item.modified_at)
            && replies[n - 1] == ReplyView::Time(item.last_access)
    })
    &&& s.phase is Over <==> step is End
    &&& step matches StepView::Ask(a) ==> (a is SaveItem ==> s.phase is Save)
    &&& step matches StepView::End(Ok(item)) ==> n >= 1 && replies[n - 1] == ReplyView::Done(
        Ok(()),
    ) && effects::run(start, replies.drop_last()).1 == ask(ActionView::SaveItem { item })
}

/// Whether an item is another with new content, and nothing else of it has changed but its
/// version, its times and that its bytes are on disk.
pub open spec fn is_changed(before: ItemView, data: Seq<u8>, item: ItemView) -> bool {
    &&& item.item_id == before.item_id
    &&& item.parent_id == before.parent_id
    &&& item.filename == before.filename
    &&& item.is_folder == before.is_folder
    &&& item.content_type == before.content_type
    &&& before.version < i64::MAX ==> item.version == before.version + 1
    &&& item.size == data.len() as i64
    &&& item.hash == Some(hash::blake3_hex(data))
    &&& item.s3_key == Some("fp/"@ + hash::blake3_hex(data))
    &&& !item.dataless
}

#[verifier::spinoff_prover]
#[verifier::rlimit(100)]
proof fn lemma_update_known(
    cfg: ConfigView,
    item_id: Seq<char>,
    temp_path: Seq<char>,
    replies: Seq<ReplyView>,
)
    ensures
        update_known(laws::update_start(cfg, item_id, temp_path), replies),
    decreases replies.len(),
{
    let start = laws::update_start(cfg, item_id, temp_path);
    if replies.len() > 0 {
        let front = replies.drop_last();
        let reply = replies.last();
        lemma_update_known(cfg, item_id, temp_path, front);
        effects::lemma_happened(start, replies);
        lemma_takes(start, replies);
        let (s, step) = effects::run(start, front);
        let (t, next) = s.respond(reply);
        assert(effects::run(start, replies) == (t, next));
        if reply is Done && reply->Done_0 is Ok {
            assert(reply->Done_0->Ok_0 == ());
        }
        if t.phase is Modified && s.phase is Head {
            assert(effects::happened(
                start,
                replies,
                ActionView::HeadObject { at: cfg.remote(), key: "fp/"@ + s.hash },
                ReplyView::Found(Ok(true)),
            ));
            assert(is_kept(start, replies, cfg, s.data));
        }
        if t.phase is Modified && s.phase is Upload {
            let data = replies[1]->File_0->Ok_0;
            assert(effects::happened(
                start,
                replies,
                ActionView::StoreObject { at: cfg.remote(), key: "fp/"@ + s.hash, data },
                ReplyView::Done(Ok(())),
            ));
            assert(is_kept(start, replies, cfg, data));
        }
    }
}

/// What is stored of a changed item is the item that was there, with the size, the hash and the
/// key of the bytes at the given path, which are in the bucket; one version further, with the
/// times that were read last, and with its bytes on disk.
pub proof fn law_a_changed_item_has_the_new_content(
    cfg: ConfigView,
    item_id: Seq<char>,
    temp_path: Seq<char>,
    replies: Seq<ReplyView>,
    item: ItemView,
)
    requires
        effects::run(laws::update_start(cfg, item_id, temp_path), replies).1 == StepView::<
            ItemView,
        >::Ask(ActionView::SaveItem { item }),
    ensures
        replies.len() >= 3,
        replies[0] is Item,
        replies[0]->Item_0 is Ok,
        replies[0]->Item_0->Ok_0 is Some,
        replies[1] is File,
        replies[1]->File_0 is Ok,
        is_changed(replies[0]->Item_0->Ok_0->0, replies[1]->File_0->Ok_0, item),
        is_kept(
            laws::update_start(cfg, item_id, temp_path),
            replies,
            cfg,
            replies[1]->File_0->Ok_0,
        ),
        replies[replies.len() - 2] == ReplyView::Time(item.modified_at),
        replies[replies.len() - 1] == ReplyView::Time(item.last_access),
{
    lemma_update_known(cfg, item_id, temp_path, replies);
}

/// A change gives back the item that it has stored, which was the last thing it did.
pub proof fn law_an_updated_item_is_the_stored_one(
    cfg: ConfigView,
    item_id: Seq<char>,
    temp_path: Seq<char>,
    replies: Seq<ReplyView>,
    item: ItemView,
)
    requires
        effects::run(laws::update_start(cfg, item_id, temp_path), replies).1 == StepView::<
            ItemView,
        >::End(Ok(item)),
    ensures
        replies.last() == ReplyView::Done(Ok(())),
        effects::run(
            laws::update_start(cfg, item_id, temp_path),
            replies.drop_last(),
        ).1 == StepView::<ItemView>::Ask(ActionView::SaveItem { item }),
{
    lemma_update_known(cfg, item_id, temp_path, replies);
}

// ---- fetching -----------------------------------------------------------------------

/// What is known of a fetch in each phase: what it was answered, and what it asked for.
spec fn fetch_known(
    cfg: ConfigView,
    item_id: Seq<char>,
    out_path: Seq<char>,
    replies: Seq<ReplyView>,
) -> bool {
    let start = laws::fetch_start(cfg, item_id, out_path);
    let (s, step) = effects::run(start, replies);
    let asked = |k: int, a: ActionView|
        effects::run(start, replies.take(k)).1 == StepView::<ItemView>::Ask(a);
    let n = replies.len() as int;
    let begun = !(s.phase is Item || s.phase is Over);
    &&& s.cfg == cfg && s.item_id == item_id && s.out_path == out_path
    &&& s.phase is Item ==> n == 0
    &&& s.phase is Object ==> n == 1
    &&& s.phase is Write ==> n == 2
    &&& s.phase is Dataless ==> n == 3
    &&& s.phase is Time ==> n == 4
    &&& s.phase is Touch ==> n == 5
    &&& begun ==> s.item is Some && s.item->0.s3_key is Some && replies[0] == ReplyView::Item(
        Ok(s.item),
    ) && asked(1, ActionView::GetObject { at: cfg.remote(), key: s.item->0.s3_key->0 })
    &&& begun && n >= 2 ==> replies[1] is Object && replies[1]->Object_0 is Ok && asked(
        2,
        ActionView::WriteFile { path: out_path, data: replies[1]->Object_0->Ok_0 },
    )
    &&& begun && n >= 3 ==> replies[2] == ReplyView::Wrote(Ok(())) && asked(
        3,
        ActionView::SetDataless { item_id, dataless: false },
    )
    &&& begun && n >= 4 ==> replies[3] == ReplyView::Done(Ok(())) && asked(4, ActionView::Clock)
    &&& begun && n >= 5 ==> replies[4] is Time && asked(
        5,
        ActionView::TouchAccess { item_id, ts: replies[4]->Time_0 },
    )
    &&& s.phase is Over ==> step is End
    &&& step matches StepView::End(Ok(item)) ==> {
        &&& n == 6
        &&& replies[0] == ReplyView::Item(Ok(Some(item)))
        &&& item.s3_key is Some
        &&& asked(1, ActionView::GetObject { at: cfg.remote(), key: item.s3_key->0 })
        &&& replies[1] is Object
        &&& replies[1]->Object_0 is Ok
        &&& asked(
            2,
            ActionView::WriteFile { path: out_path, data: replies[1]->Object_0->Ok_0 },
        )
        &&& replies[2] == ReplyView::Wrote(Ok(()))
        &&& asked(3, ActionView::SetDataless { item_id, dataless: false })
        &&& replies[3] == ReplyView::Done(Ok(()))
        &&& asked(4, ActionView::Clock)
        &&& replies[4] is Time
        &&& asked(5, ActionView::TouchAccess { item_id, ts: replies[4]->Time_0 })
        &&& replies[5] == ReplyView::Done(Ok(()))
    }
}

#[verifier::spinoff_prover]
#[verifier::rlimit(100)]
proof fn lemma_fetch_known(
    cfg: ConfigView,
    item_id: Seq<char>,
    out_path: Seq<char>,
    replies: Seq<ReplyView>,
)
    ensures
        fetch_known(cfg, item_id, out_path, replies),
    decreases replies.len(),
{
    let start = laws::fetch_start(cfg, item_id, out_path);
    if replies.len() > 0 {
        let front = replies.drop_last();
        let reply = replies.last();
        lemma_fetch_known(cfg, item_id, out_path, front);
        lemma_takes(start, replies);
        let (s, step) = effects::run(start, front);
        let (t, next) = s.respond(reply);
        assert(effects::run(start, replies) == (t, next));
        assert(replies.take(replies.len() as int) =~= replies);
        assert(front.take(front.len() as int) =~= front);
        if reply is Done && reply->Done_0 is Ok {
            assert(reply->Done_0->Ok_0 == ());
        }
        if reply is Wrote && reply->Wrote_0 is Ok {
            assert(reply->Wrote_0->Ok_0 == ());
        }
    }
}

/// A fetch that succeeds has done just this: it looked the item up, got the object of the item,
/// wrote what it got to the given path, noted that the bytes are here and when, and gives back
/// the item as it was found.
pub proof fn law_a_fetch_brings_the_items_object(
    cfg: ConfigView,
    item_id: Seq<char>,
    out_path: Seq<char>,
    replies: Seq<ReplyView>,
    item: ItemView,
)
    requires
        effects::run(laws::fetch_start(cfg, item_id, out_path), replies).1 == StepView::<
            ItemView,
        >::End(Ok(item)),
    ensures
        ({
            let start = laws::fetch_start(cfg, item_id, out_path);
            let asked = |k: int, a: ActionView|
                effects::run(start, replies.take(k)).1 == StepView::<ItemView>::Ask(a);
            &&& replies.len() == 6
            &&& replies[0] == ReplyView::Item(Ok(Some(item)))
            &&& item.s3_key is Some
            &&& asked(1, ActionView::GetObject { at: cfg.remote(), key: item.s3_key->0 })
            &&& replies[1] is Object
            &&& replies[1]->Object_0 is Ok
            &&& asked(
                2,
                ActionView::WriteFile { path: out_path, data: replies[1]->Object_0->Ok_0 },
            )
            &&& replies[2] == ReplyView::Wrote(Ok(()))
            &&& asked(3, ActionView::SetDataless { item_id, dataless: false })
            &&& asked(4, ActionView::Clock)
            &&& replies[4] is Time
            &&& asked(5, ActionView::TouchAccess { item_id, ts: replies[4]->Time_0 })
        }),
{
    lemma_fetch_known(cfg, item_id, out_path, replies);
}

} // verus!

//! Laws of what is reported: which files count as offloaded, and the totals.

use vstd::prelude::*;
use vstd::utf8::*;

use crate::config::ConfigView;
use crate::effects;
use crate::effects::{ActionView, ReplyView, StepView};
use crate::engine;
use crate::engine::{FolderItem, Sight};
use crate::error::{Fault, StowResult};
use crate::index::{Record, RecordView};
use crate::laws;
use crate::lists;
use crate::offload::{OffloadResult, OffloadResultView};
use crate::placeholder::ProbeView;
use crate::placing;
use crate::policy::Candidate;
use crate::text;

verus! {

// ---- placeholders -------------------------------------------------------------------

/// A link whose target lies in the cloud folders and holds the name of the mirror area is a
/// placeholder, wherever in the target the two stand.
pub proof fn law_links_into_the_mirror_area_are_placeholders(
    a: Seq<char>,
    b: Seq<char>,
    c: Seq<char>,
    d: Seq<char>,
    inplace: Seq<char>,
)
    requires
        a + "/Library/CloudStorage/"@ + b == c + inplace + d,
    ensures
        ProbeView::Link(Some(a + "/Library/CloudStorage/"@ + b)).placeholder(inplace) == Ok::<
            bool,
            Fault,
        >(true),
{
    let t = a + "/Library/CloudStorage/"@ + b;
    let m = "/Library/CloudStorage/"@;
    assert(t.subrange(a.len() as int, (a.len() + m.len()) as int) =~= m);
    assert(text::occurs_at(t, m, a.len() as int));
    assert(t.subrange(c.len() as int, (c.len() + inplace.len()) as int) =~= inplace);
    assert(text::occurs_at(t, inplace, c.len() as int));
}

/// A link that leads elsewhere, or nowhere that can be read, is no placeholder.
pub proof fn law_other_links_are_no_placeholders(t: Seq<char>, inplace: Seq<char>)
    requires
        (forall|a: Seq<char>, b: Seq<char>| t != #[trigger] (a + "/Library/CloudStorage/"@ + b))
            || (forall|c: Seq<char>, d: Seq<char>| t != #[trigger] (c + inplace + d)),
    ensures
        ProbeView::Link(Some(t)).placeholder(inplace) == Ok::<bool, Fault>(false),
        ProbeView::Link(None).placeholder(inplace) == Ok::<bool, Fault>(false),
        ProbeView::Nothing.placeholder(inplace) == Ok::<bool, Fault>(false),
{
    let m = "/Library/CloudStorage/"@;
    if text::occurs(t, m) && text::occurs(t, inplace) {
        lemma_occurrence(t, m);
        lemma_occurrence(t, inplace);
    }
}

/// What occurs in a text parts it in two.
proof fn lemma_occurrence(t: Seq<char>, x: Seq<char>)
    requires
        text::occurs(t, x),
    ensures
        exists|a: Seq<char>, b: Seq<char>| t == #[trigger] (a + x + b),
{
    let i = choose|i: int| text::occurs_at(t, x, i);
    let a = t.take(i);
    let b = t.skip(i + x.len());
    assert forall|j: int| 0 <= j < x.len() implies t[i + j] == x[j] by {
        assert(t.subrange(i, i + x.len())[j] == x[j]);
    }
    assert(t =~= a + x + b);
}

/// A regular file is a placeholder exactly if it begins with `STOW1` and a line feed. One that
/// is too short for that is none, and where its first bytes cannot be read, that is an error.
pub proof fn law_files_are_told_by_their_mark(
    len: u64,
    head: Result<Seq<u8>, Seq<char>>,
    inplace: Seq<char>,
)
    ensures
        ({
            let found = (ProbeView::File { len, head }).placeholder(inplace);
            &&& len < 6 ==> found == Ok::<bool, Fault>(false)
            &&& len >= 6 ==> match head {
                Ok(h) => found == Ok::<bool, Fault>(
                    h.len() == 6 && h[0] == 83 && h[1] == 84 && h[2] == 79 && h[3] == 87 && h[4]
                        == 49 && h[5] == 10,
                ),
                Err(m) => found == Err::<bool, Fault>(Fault::Io(m)),
            }
        }),
{
    if len >= 6 && head is Ok {
        let h = head->Ok_0;
        if h.len() == 6 && h[0] == 83 && h[1] == 84 && h[2] == 79 && h[3] == 87 && h[4] == 49
            && h[5] == 10 {
            assert(h =~= seq![83u8, 84u8, 79u8, 87u8, 49u8, 10u8]);
        }
    }
}

// ---- status -------------------------------------------------------------------------

/// What is reported of an offloaded file is what its record says, and that a placeholder is
/// there where something is there and was found to be one: a link into the mirror area just
/// as a file with a stub's mark.
pub proof fn law_links_and_stubs_are_reported(
    r: Record,
    s: Sight,
    inplace: Seq<char>,
    a: Seq<char>,
    b: Seq<char>,
    c: Seq<char>,
    d: Seq<char>,
)
    ensures
        engine::status_item(r, s, inplace).path == r.path@,
        engine::status_item(r, s, inplace).size == r.size,
        engine::status_item(r, s, inplace).hash == r.hash@,
        s.exists && s.probe@ == ProbeView::Link(Some(a + "/Library/CloudStorage/"@ + b)) && a
            + "/Library/CloudStorage/"@ + b == c + inplace + d ==> engine::status_item(
            r,
            s,
            inplace,
        ).present_as_placeholder,
        s.exists && s.probe@ is File && s.probe@->len >= 6 && s.probe@->head == Ok::<
            Seq<u8>,
            Seq<char>,
        >(seq![83u8, 84u8, 79u8, 87u8, 49u8, 10u8]) ==> engine::status_item(
            r,
            s,
            inplace,
        ).present_as_placeholder,
        !s.exists ==> !engine::status_item(r, s, inplace).present_as_placeholder,
        s.probe@ is Nothing || s.probe@ == ProbeView::Link(None) ==> !engine::status_item(
            r,
            s,
            inplace,
        ).present_as_placeholder,
        s.probe@ is File && (s.probe@->len < 6 || s.probe@->head is Err || s.probe@->head->Ok_0
            != seq![83u8, 84u8, 79u8, 87u8, 49u8, 10u8]) ==> !engine::status_item(
            r,
            s,
            inplace,
        ).present_as_placeholder,
{
    if a + "/Library/CloudStorage/"@ + b == c + inplace + d {
        law_links_into_the_mirror_area_are_placeholders(a, b, c, d, inplace);
    }
    match s.probe@ {
        ProbeView::File { len, head } => {
            law_files_are_told_by_their_mark(len, head, inplace);
        },
        _ => {},
    }
}

/// The UTF-8 bytes of a text are those of its parts, one after the other.
proof fn lemma_encode_concat(a: Seq<char>, b: Seq<char>)
    ensures
        encode_utf8(a + b) == encode_utf8(a) + encode_utf8(b),
    decreases a.len(),
{
    if a.len() == 0 {
        assert(a + b =~= b);
        assert(encode_utf8(a) + encode_utf8(b) =~= encode_utf8(b));
    } else {
        let rest = a.drop_first();
        lemma_encode_concat(rest, b);
        assert((a + b).drop_first() =~= rest + b);
        assert(encode_utf8(a + b) =~= encode_utf8(a) + encode_utf8(b));
    }
}

/// Only a text that begins with a slash has bytes that do.
proof fn lemma_slash_byte(s: Seq<char>)
    requires
        encode_utf8(s).len() > 0,
        encode_utf8(s)[0] == 0x2f,
    ensures
        s.len() > 0,
        s[0] == '/',
{
    let b = encode_utf8(s);
    if s.len() == 0 {
        assert(false);
    }
    encode_utf8_first_scalar(s);
    let x = b[0];
    assert(x == 0x2f ==> (x & 0x80 == 0)) by (bit_vector);
    assert(x == 0x2f ==> (x & 0x7f) == 0x2f) by (bit_vector);
    assert(decode_first_scalar(b) == 0x2f);
    char_u32_cast(s[0], 0x2f);
}

/// Two texts joined as paths, the second not absolute: the bytes are those of the two texts
/// with at most a slash between them.
proof fn lemma_joined_texts(base: Seq<char>, rel: Seq<char>)
    requires
        rel.len() > 0 ==> rel[0] != '/',
    ensures
        ({
            let j = text::joined_bytes(encode_utf8(base), encode_utf8(rel));
            j == encode_utf8(base + rel) || j == encode_utf8(base + "/"@ + rel)
        }),
{
    reveal_strlit("/");
    let b = encode_utf8(base);
    let r = encode_utf8(rel);
    if r.len() > 0 && r[0] == 0x2f {
        lemma_slash_byte(rel);
    }
    lemma_encode_concat(base, rel);
    lemma_encode_concat(base, "/"@);
    lemma_encode_concat(base + "/"@, rel);
    assert(encode_utf8("/"@) =~= seq![0x2fu8]) by {
        assert("/"@ =~= seq!['/']);
        assert("/"@.drop_first() =~= Seq::<char>::empty());
        assert(encode_utf8(Seq::<char>::empty()) =~= Seq::<u8>::empty());
        assert(0x2fu32 & 0x7f == 0x2f) by (bit_vector);
        assert(encode_scalar(0x2fu32) =~= seq![0x2fu8]);
    }
    assert(b.push(0x2f) =~= b + seq![0x2fu8]);
}

/// The path of an item in the mirror area is the target of a placeholder.
#[verifier::spinoff_prover]
#[verifier::rlimit(40)]
proof fn lemma_item_path_is_a_placeholder(
    home: Seq<char>,
    mount: Seq<char>,
    inplace: Seq<char>,
    name: Seq<char>,
    found: Seq<char>,
)
    requires
        inplace.len() > 0,
        !inplace.contains('/'),
        !name.contains('/'),
        encode_utf8(found) == text::joined_bytes(
            text::joined_bytes(
                encode_utf8(home + "/Library/CloudStorage/"@ + mount),
                encode_utf8(inplace),
            ),
            encode_utf8(name),
        ),
    ensures
        ProbeView::Link(Some(found)).placeholder(inplace) == Ok::<bool, Fault>(true),
{
    let target = encode_utf8(found);
    let root = encode_utf8(home + "/Library/CloudStorage/"@ + mount);
    let marker = "/Library/CloudStorage/"@;
    let base = home + marker + mount;
    assert(inplace.contains(inplace[0]));
    if name.len() > 0 {
        assert(name.contains(name[0]));
    }
    lemma_joined_texts(base, inplace);
    let dir = text::joined_bytes(root, encode_utf8(inplace));
    let area = if dir == encode_utf8(base + inplace) {
        base + inplace
    } else {
        base + "/"@ + inplace
    };
    lemma_joined_texts(area, name);
    let sep = if dir == encode_utf8(base + inplace) {
        Seq::<char>::empty()
    } else {
        "/"@
    };
    let rest = if target == encode_utf8(area + name) {
        name
    } else {
        "/"@ + name
    };
    assert(area =~= base + sep + inplace);
    assert(area + rest =~= if target == encode_utf8(area + name) {
        area + name
    } else {
        area + "/"@ + name
    });
    assert(target == encode_utf8(area + rest));
    text::lemma_encode_injective(found, area + rest);
    let b = mount + sep + inplace + rest;
    let c = base + sep;
    assert(found =~= home + marker + b);
    assert(found =~= c + inplace + rest);
    law_links_into_the_mirror_area_are_placeholders(home, b, c, rest, inplace);
}

/// A file that an offload has replaced by a link is reported as a placeholder for as long as
/// the item is there: the link that was moved over the file reads as a text into the mirror
/// area, for every mount in the cloud folders and every name that the item may have.
#[verifier::spinoff_prover]
#[verifier::rlimit(40)]
pub proof fn law_linked_files_are_reported(
    path: Seq<char>,
    cfg: ConfigView,
    inplace: Seq<char>,
    fp_down: bool,
    replies: Seq<ReplyView>,
    from: Seq<char>,
    target: Seq<u8>,
    found: Seq<char>,
    r: Record,
    s: Sight,
)
    requires
        effects::run(laws::offload_start(path, cfg, inplace, fp_down), replies).1 == StepView::<
            OffloadResultView,
        >::Ask(ActionView::Rename { from, to: path }),
        effects::run(
            laws::offload_start(path, cfg, inplace, fp_down),
            replies.drop_last(),
        ).1 == StepView::<OffloadResultView>::Ask(ActionView::MakeLink { target, path: from }),
        inplace.len() > 0,
        !inplace.contains('/'),
        forall|root: Seq<u8>| #[trigger]
            effects::happened(
                laws::offload_start(path, cfg, inplace, fp_down),
                replies,
                ActionView::FindMount,
                ReplyView::Mount(Some(root)),
            ) ==> exists|home: Seq<char>, mount: Seq<char>|
                root == #[trigger] encode_utf8(home + "/Library/CloudStorage/"@ + mount),
        forall|rec: RecordView, name: Seq<char>| #[trigger]
            effects::happened(
                laws::offload_start(path, cfg, inplace, fp_down),
                replies,
                ActionView::MirrorItem { rec },
                ReplyView::Text(Ok(name)),
            ) ==> !name.contains('/'),
        encode_utf8(found) == target,
        s.exists,
        s.probe@ == ProbeView::Link(Some(found)),
    ensures
        engine::status_item(r, s, inplace).present_as_placeholder,
{
    let start = laws::offload_start(path, cfg, inplace, fp_down);
    placing::law_an_offloaded_file_links_to_its_item(
        path,
        cfg,
        inplace,
        fp_down,
        replies,
        from,
        path,
    );
    let (root, rec, name) = choose|root: Seq<u8>, rec: RecordView, name: Seq<char>|
        #[trigger] placing::item_named(start, replies, root, rec, name) && rec.path == path && ({
            let dir = text::joined_bytes(root, encode_utf8(inplace));
            let target = text::joined_bytes(dir, encode_utf8(name));
            &&& effects::run(start, replies.drop_last()).1 == StepView::<OffloadResultView>::Ask(
                ActionView::MakeLink { target, path: from },
            )
            &&& effects::happened(
                start,
                replies,
                ActionView::LookFor { dir, item: target },
                ReplyView::Seen(true),
            )
        });
    let (home, mount) = choose|home: Seq<char>, mount: Seq<char>|
        root == #[trigger] encode_utf8(home + "/Library/CloudStorage/"@ + mount);
    assert(target == text::joined_bytes(
        text::joined_bytes(root, encode_utf8(inplace)),
        encode_utf8(name),
    ));
    lemma_item_path_is_a_placeholder(home, mount, inplace, name, found);
}

/// A file that an offload has replaced by a stub is reported as a placeholder: what was
/// written begins with a stub's mark.
pub proof fn law_stubbed_files_are_reported(
    path: Seq<char>,
    cfg: ConfigView,
    inplace: Seq<char>,
    fp_down: bool,
    replies: Seq<ReplyView>,
    data: Seq<u8>,
    r: Record,
    s: Sight,
)
    requires
        effects::run(laws::offload_start(path, cfg, inplace, fp_down), replies).1 == StepView::<
            OffloadResultView,
        >::Ask(ActionView::WriteFile { path, data }),
        data.len() <= u64::MAX,
        s.exists,
        s.probe@ == (ProbeView::File { len: data.len() as u64, head: Ok(data.take(6)) }),
    ensures
        engine::status_item(r, s, inplace).present_as_placeholder,
{
    placing::law_a_stub_describes_the_file(path, cfg, inplace, fp_down, replies, path, data);
    assert(data.take(6) =~= seq![83u8, 84u8, 79u8, 87u8, 49u8, 10u8]);
    law_files_are_told_by_their_mark(data.len() as u64, Ok(data.take(6)), inplace);
}

/// One more offloaded file adds its size to the total. It counts as saved, with its size,
/// unless it was restored or its item in the mirror area holds the bytes again.
pub proof fn law_totals_grow_file_by_file(
    items: Seq<Record>,
    sights: Seq<Sight>,
    r: Record,
    s: Sight,
)
    requires
        items.len() == sights.len(),
    ensures
        lists::sum(engine::record_sizes(Seq::empty())) == 0,
        lists::sum(engine::record_sizes(items.push(r))) == lists::sum(engine::record_sizes(items))
            + r.size,
        lists::sum(engine::saved_marks(Seq::empty(), Seq::empty())) == 0,
        lists::sum(engine::saved_sizes(Seq::empty(), Seq::empty())) == 0,
        r.restored || s.mirror == Some(false) ==> {
            &&& lists::sum(engine::saved_marks(items.push(r), sights.push(s))) == lists::sum(
                engine::saved_marks(items, sights),
            )
            &&& lists::sum(engine::saved_sizes(items.push(r), sights.push(s))) == lists::sum(
                engine::saved_sizes(items, sights),
            )
        },
        !r.restored && (s.mirror is None || s.mirror == Some(true)) ==> {
            &&& lists::sum(engine::saved_marks(items.push(r), sights.push(s))) == lists::sum(
                engine::saved_marks(items, sights),
            ) + 1
            &&& lists::sum(engine::saved_sizes(items.push(r), sights.push(s))) == lists::sum(
                engine::saved_sizes(items, sights),
            ) + r.size
        },
{
    let a = engine::record_sizes(items.push(r));
    let m = engine::saved_marks(items.push(r), sights.push(s));
    let z = engine::saved_sizes(items.push(r), sights.push(s));
    assert(a.drop_last() =~= engine::record_sizes(items));
    assert(m.drop_last() =~= engine::saved_marks(items, sights));
    assert(z.drop_last() =~= engine::saved_sizes(items, sights));
}

/// One more file of the Stow folder adds its size to the folder's total.
pub proof fn law_folder_totals_grow_file_by_file(folder: Seq<FolderItem>, f: FolderItem)
    ensures
        lists::sum(engine::folder_sizes(Seq::empty())) == 0,
        lists::sum(engine::folder_sizes(folder.push(f))) == lists::sum(engine::folder_sizes(folder))
            + f.size,
{
    assert(engine::folder_sizes(folder.push(f)).drop_last() =~= engine::folder_sizes(folder));
}

// ---- scans and automatic runs -------------------------------------------------------

/// One more candidate adds its size to what could be reclaimed.
pub proof fn law_reclaimable_bytes_grow_by_candidate(c: Seq<Candidate>, x: Candidate)
    ensures
        lists::sum(engine::candidate_sizes(Seq::empty())) == 0,
        lists::sum(engine::candidate_sizes(c.push(x))) == lists::sum(engine::candidate_sizes(c))
            + x.size,
{
    assert(engine::candidate_sizes(c.push(x)).drop_last() =~= engine::candidate_sizes(c));
}

/// One more candidate of a run is listed as offloaded, with the bytes that it has freed added
/// to the total, or as failed, with the text of its error, and then frees nothing; what came
/// of the others stays as it is.
pub proof fn law_runs_are_told_candidate_by_candidate(
    c: Seq<Candidate>,
    outcomes: Seq<StowResult<OffloadResult>>,
    x: Candidate,
    outcome: StowResult<OffloadResult>,
)
    requires
        c.len() == outcomes.len(),
    ensures
        ({
            let before = engine::attempts(c, outcomes);
            let after = engine::attempts(c.push(x), outcomes.push(outcome));
            match outcome {
                Ok(o) => {
                    &&& engine::offloaded(after) == engine::offloaded(before).push(x.path@)
                    &&& engine::failed(after) == engine::failed(before)
                    &&& lists::sum(engine::freed(after)) == lists::sum(engine::freed(before))
                        + o.bytes_freed
                },
                Err(e) => {
                    &&& engine::offloaded(after) == engine::offloaded(before)
                    &&& engine::failed(after).len() == engine::failed(before).len() + 1
                    &&& engine::failed(after).drop_last() == engine::failed(before)
                    &&& engine::failed(after).last().path == x.path@
                    &&& engine::failed(after).last().error == e@.text()
                    &&& lists::sum(engine::freed(after)) == lists::sum(engine::freed(before))
                },
            }
        }),
{
    let before = engine::attempts(c, outcomes);
    let after = engine::attempts(c.push(x), outcomes.push(outcome));
    assert(after.drop_last() =~= before);
    assert(after.last() == engine::attempt(x, outcome));
    assert(engine::freed(after).drop_last() =~= engine::freed(before));
    match outcome {
        Ok(o) => {
            assert(engine::offloaded(after) =~= engine::offloaded(before).push(x.path@));
            assert(engine::failed(after) =~= engine::failed(before));
        },
        Err(e) => {
            assert(engine::offloaded(after) =~= engine::offloaded(before));
            assert(engine::failed(after).drop_last() =~= engine::failed(before));
        },
    }
}

} // verus!

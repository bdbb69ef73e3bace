//! The index of offloaded files and of published share links. It tracks every file
//! that Stow has offloaded, so that none is ever lost.

use vstd::prelude::*;

use crate::lists;
use crate::order;
use crate::table;
use crate::table::Keyed;
use crate::text;

verus! {

/// One offloaded file.
#[derive(Debug)]
pub struct Record {
    pub path: String,
    pub hash: String,
    pub size: i64,
    pub mode: u32,
    pub mtime: i64,
    pub s3_key: String,
    pub offloaded_at: i64,
    /// True once the file is back on disk. Its content is still stored remotely, but
    /// no local space is saved.
    pub restored: bool,
}

/// One published share link: a copy of the content that anyone can read.
#[derive(Debug)]
pub struct ShareRow {
    pub token: String,
    pub source: String,
    pub s3_key: String,
    pub url: String,
    pub size: i64,
    pub is_folder: bool,
    pub created_at: i64,
}

/// The content of a `Record`.
pub struct RecordView {
    pub path: Seq<char>,
    pub hash: Seq<char>,
    pub size: i64,
    pub mode: u32,
    pub mtime: i64,
    pub s3_key: Seq<char>,
    pub offloaded_at: i64,
    pub restored: bool,
}

impl View for Record {
    type V = RecordView;

    open spec fn view(&self) -> RecordView {
        RecordView {
            path: self.path@,
            hash: self.hash@,
            size: self.size,
            mode: self.mode,
            mtime: self.mtime,
            s3_key: self.s3_key@,
            offloaded_at: self.offloaded_at,
            restored: self.restored,
        }
    }
}

/// The content of a `ShareRow`.
pub struct ShareRowView {
    pub token: Seq<char>,
    pub source: Seq<char>,
    pub s3_key: Seq<char>,
    pub url: Seq<char>,
    pub size: i64,
    pub is_folder: bool,
    pub created_at: i64,
}

impl View for ShareRow {
    type V = ShareRowView;

    open spec fn view(&self) -> ShareRowView {
        ShareRowView {
            token: self.token@,
            source: self.source@,
            s3_key: self.s3_key@,
            url: self.url@,
            size: self.size,
            is_folder: self.is_folder,
            created_at: self.created_at,
        }
    }
}

impl Clone for Record {
    fn clone(&self) -> (r: Self)
        ensures
            r == *self,
    {
        Record {
            path: self.path.clone(),
            hash: self.hash.clone(),
            size: self.size,
            mode: self.mode,
            mtime: self.mtime,
            s3_key: self.s3_key.clone(),
            offloaded_at: self.offloaded_at,
            restored: self.restored,
        }
    }
}

impl Clone for ShareRow {
    fn clone(&self) -> (r: Self)
        ensures
            r == *self,
    {
        ShareRow {
            token: self.token.clone(),
            source: self.source.clone(),
            s3_key: self.s3_key.clone(),
            url: self.url.clone(),
            size: self.size,
            is_folder: self.is_folder,
            created_at: self.created_at,
        }
    }
}

/// Records are listed newest first.
impl order::Ranked for Record {
    open spec fn leads(self, other: Self) -> bool {
        self.offloaded_at >= other.offloaded_at
    }

    proof fn leads_total(a: Self, b: Self) {
    }

    proof fn leads_transitive(a: Self, b: Self, c: Self) {
    }

    fn may_lead(&self, other: &Self) -> (r: bool) {
        self.offloaded_at >= other.offloaded_at
    }
}

/// Share links are listed newest first.
impl order::Ranked for ShareRow {
    open spec fn leads(self, other: Self) -> bool {
        self.created_at >= other.created_at
    }

    proof fn leads_total(a: Self, b: Self) {
    }

    proof fn leads_transitive(a: Self, b: Self, c: Self) {
    }

    fn may_lead(&self, other: &Self) -> (r: bool) {
        self.created_at >= other.created_at
    }
}

impl Keyed for Record {
    open spec fn key(self) -> Seq<char> {
        self.path@
    }

    fn key_text(&self) -> (r: &str) {
        self.path.as_str()
    }

    fn copy_row(&self) -> (r: Self) {
        self.clone()
    }
}

impl Keyed for ShareRow {
    open spec fn key(self) -> Seq<char> {
        self.token@
    }

    fn key_text(&self) -> (r: &str) {
        self.token.as_str()
    }

    fn copy_row(&self) -> (r: Self) {
        self.clone()
    }
}

/// The index: offloaded files by path, and share links by token.
pub struct Index {
    items: Vec<Record>,
    shares: Vec<ShareRow>,
}

impl Index {
    /// The offloaded files, in the order in which they were first recorded.
    pub closed spec fn items(self) -> Seq<Record> {
        self.items@
    }

    /// The share links, in the order in which they were recorded.
    pub closed spec fn shares(self) -> Seq<ShareRow> {
        self.shares@
    }

    /// No two files have the same path, and no two links the same token.
    pub open spec fn wf(self) -> bool {
        table::distinct_keys(self.items()) && table::distinct_keys(self.shares())
    }

    /// An index that holds the given rows; `None` where a path or a token occurs twice.
    pub fn open(items: Vec<Record>, shares: Vec<ShareRow>) -> (r: Option<Index>)
        ensures
            match r {
                Some(x) => x.wf() && x.items() == items@ && x.shares() == shares@,
                None => !table::distinct_keys(items@) || !table::distinct_keys(shares@),
            },
    {
        if table::check_distinct(&items) && table::check_distinct(&shares) {
            Some(Index { items, shares })
        } else {
            None
        }
    }

    /// Records an offloaded file. A file that was recorded before, under the same path,
    /// is replaced; either way the file counts as not restored.
    pub fn upsert(&mut self, r: &Record)
        requires
            old(self).wf(),
        ensures
            final(self).wf(),
            final(self).items() == table::with_row(old(self).items(), as_offloaded(*r)),
            final(self).shares() == old(self).shares(),
    {
        let mut n = r.clone();
        n.restored = false;
        proof {
            table::lemma_with_row(self.items@, as_offloaded(*r));
        }
        match table::find_row(&self.items, r.path.as_str()) {
            Some(i) => {
                self.items.set(i, n);
            },
            None => {
                self.items.push(n);
            },
        }
    }

    /// The record of a path.
    pub fn get(&self, path: &str) -> (r: Option<Record>)
        requires
            self.wf(),
        ensures
            r == table::row(self.items(), path@),
    {
        table::get_row(&self.items, path)
    }

    /// Forgets a path.
    pub fn remove(&mut self, path: &str)
        requires
            old(self).wf(),
        ensures
            final(self).wf(),
            final(self).items() == table::without_row(old(self).items(), path@),
            final(self).shares() == old(self).shares(),
    {
        table::delete_row(&mut self.items, path);
    }

    /// Flags a recorded file as restored (back on disk) or as offloaded again. Nothing
    /// changes where the path is not recorded.
    pub fn set_restored(&mut self, path: &str, restored: bool)
        requires
            old(self).wf(),
        ensures
            final(self).wf(),
            final(self).items() == with_restored(old(self).items(), path@, restored),
            final(self).shares() == old(self).shares(),
    {
        match table::find_row(&self.items, path) {
            Some(i) => {
                let mut n = self.items[i].clone();
                n.restored = restored;
                proof {
                    let flagged = Record { restored, ..self.items@[i as int] };
                    assert(table::is_slot(self.items@, path@, i as int));
                    table::lemma_with_row(self.items@, flagged);
                }
                self.items.set(i, n);
            },
            None => {},
        }
    }

    /// Records a share link; one with the same token is replaced and counts as new.
    pub fn add_share(&mut self, s: &ShareRow)
        requires
            old(self).wf(),
        ensures
            final(self).wf(),
            final(self).shares() == table::without_row(old(self).shares(), s.token@).push(*s),
            final(self).items() == old(self).items(),
    {
        table::delete_row(&mut self.shares, s.token.as_str());
        proof {
            table::lemma_without_row(old(self).shares@, s.token@);
            table::lemma_with_row(self.shares@, *s);
        }
        self.shares.push(s.clone());
    }

    /// The share link with a token.
    pub fn get_share(&self, token: &str) -> (r: Option<ShareRow>)
        requires
            self.wf(),
        ensures
            r == table::row(self.shares(), token@),
    {
        table::get_row(&self.shares, token)
    }

    /// All share links, newest first.
    pub fn list_shares(&self) -> (r: Vec<ShareRow>)
        ensures
            order::stably_sorted(self.shares(), r@),
    {
        order::sort(table::copy_rows(&self.shares))
    }

    /// Forgets a share link.
    pub fn remove_share(&mut self, token: &str)
        requires
            old(self).wf(),
        ensures
            final(self).wf(),
            final(self).shares() == table::without_row(old(self).shares(), token@),
            final(self).items() == old(self).items(),
    {
        table::delete_row(&mut self.shares, token);
    }

    /// How many recorded files have a given content.
    pub fn hash_refcount(&self, hash: &str) -> (r: usize)
        ensures
            r == self.items().filter(|x: Record| x.hash@ == hash@).len(),
    {
        let ghost keep = |x: Record| x.hash@ == hash@;
        let mut n: usize = 0;
        let mut i: usize = 0;
        proof {
            lists::lemma_filter_ends(self.items@, keep);
        }
        while i < self.items.len()
            invariant
                i <= self.items.len(),
                n <= i,
                keep == (|x: Record| x.hash@ == hash@),
                n == self.items@.take(i as int).filter(keep).len(),
            decreases self.items.len() - i,
        {
            proof {
                lists::lemma_filter_take(self.items@, i as int, keep);
            }
            if text::same(self.items[i].hash.as_str(), hash) {
                n += 1;
            }
            i += 1;
        }
        proof {
            lists::lemma_filter_ends(self.items@, keep);
        }
        n
    }

    /// All recorded files, newest first.
    pub fn all(&self) -> (r: Vec<Record>)
        ensures
            order::stably_sorted(self.items(), r@),
    {
        order::sort(table::copy_rows(&self.items))
    }
}

/// A record as it is stored when a file is offloaded.
pub open spec fn as_offloaded(r: Record) -> Record {
    Record { restored: false, ..r }
}

/// The recorded files after one of them was flagged.
pub open spec fn with_restored(items: Seq<Record>, path: Seq<char>, restored: bool) -> Seq<Record> {
    if table::has_row(items, path) {
        let i = table::slot(items, path);
        items.update(i, Record { restored, ..items[i] })
    } else {
        items
    }
}

/// A file that is recorded is found again as it was recorded, and counts as offloaded,
/// also where it had been restored before; what is known of other files stays.
pub proof fn law_a_recorded_file_is_found(items: Seq<Record>, r: Record, other: Seq<char>)
    requires
        table::distinct_keys(items),
    ensures
        table::row(table::with_row(items, as_offloaded(r)), r.path@) == Some(as_offloaded(r)),
        other != r.path@ ==> table::row(table::with_row(items, as_offloaded(r)), other)
            == table::row(items, other),
{
    table::lemma_with_row(items, as_offloaded(r));
}

/// A file that is recorded twice is known as it was recorded last, and once.
pub proof fn law_the_last_record_counts(items: Seq<Record>, a: Record, b: Record)
    requires
        table::distinct_keys(items),
        a.path@ == b.path@,
    ensures
        table::with_row(table::with_row(items, as_offloaded(a)), as_offloaded(b))
            == table::with_row(items, as_offloaded(b)),
{
    table::lemma_with_row_twice(items, as_offloaded(a), as_offloaded(b));
}

/// A file that is forgotten is not found; what is known of other files stays.
pub proof fn law_a_forgotten_file_is_gone(items: Seq<Record>, path: Seq<char>, other: Seq<char>)
    requires
        table::distinct_keys(items),
    ensures
        table::row(table::without_row(items, path), path) is None,
        other != path ==> table::row(table::without_row(items, path), other) == table::row(
            items,
            other,
        ),
{
    table::lemma_without_row(items, path);
}

/// Flagging a file changes its flag and nothing else, and no other file.
pub proof fn law_flagging_changes_only_the_flag(
    items: Seq<Record>,
    path: Seq<char>,
    restored: bool,
    other: Seq<char>,
)
    requires
        table::distinct_keys(items),
    ensures
        table::row(with_restored(items, path, restored), path) == match table::row(items, path) {
            Some(r) => Some(Record { restored, ..r }),
            None => None,
        },
        other != path ==> table::row(with_restored(items, path, restored), other) == table::row(
            items,
            other,
        ),
{
    if table::has_row(items, path) {
        let i = table::slot(items, path);
        assert(table::is_slot(items, path, i));
        let flagged = Record { restored, ..items[i] };
        table::lemma_with_row(items, flagged);
        assert(with_restored(items, path, restored) == table::with_row(items, flagged));
    }
}

/// A link that is recorded is found again by its token, and a link that is revoked is
/// not; other links stay.
pub proof fn law_links_are_found_by_token(shares: Seq<ShareRow>, s: ShareRow, other: Seq<char>)
    requires
        table::distinct_keys(shares),
    ensures
        table::row(table::without_row(shares, s.token@).push(s), s.token@) == Some(s),
        table::row(table::without_row(shares, s.token@), s.token@) is None,
        other != s.token@ ==> table::row(table::without_row(shares, s.token@).push(s), other)
            == table::row(shares, other),
        other != s.token@ ==> table::row(table::without_row(shares, s.token@), other)
            == table::row(shares, other),
{
    let rest = table::without_row(shares, s.token@);
    table::lemma_without_row(shares, s.token@);
    table::lemma_with_row(rest, s);
    assert(!table::has_row(rest, s.key()));
    assert(table::with_row(rest, s) == rest.push(s));
}

/// The list of offloaded files holds, newest first, each of them once and as it was
/// recorded. `listed` stands for what listing gives.
pub proof fn law_the_list_holds_every_record(
    items: Seq<Record>,
    listed: Seq<Record>,
    path: Seq<char>,
)
    requires
        table::distinct_keys(items),
        order::stably_sorted(items, listed),
    ensures
        forall|i: int, j: int|
            0 <= i < j < listed.len() ==> (#[trigger] listed[i]).offloaded_at >= (
            #[trigger] listed[j]).offloaded_at,
        table::distinct_keys(listed),
        table::row(listed, path) == table::row(items, path),
{
    table::lemma_same_rows(items, listed, path);
    assert forall|i: int, j: int| 0 <= i < j < listed.len() implies (
    #[trigger] listed[i]).offloaded_at >= (#[trigger] listed[j]).offloaded_at by {
        assert(order::Ranked::leads(listed[i], listed[j]));
    }
}

/// What happens to share links: one is recorded, or one is revoked.
pub enum LinkEvent {
    Shared(ShareRow),
    Revoked(Seq<char>),
}

/// The share links after some events.
pub open spec fn shares_after(shares: Seq<ShareRow>, events: Seq<LinkEvent>) -> Seq<ShareRow>
    decreases events.len(),
{
    if events.len() == 0 {
        shares
    } else {
        let before = shares_after(shares, events.drop_last());
        match events.last() {
            LinkEvent::Shared(s) => table::without_row(before, s.token@).push(s),
            LinkEvent::Revoked(token) => table::without_row(before, token),
        }
    }
}

/// Whether an event is about a token.
pub open spec fn is_about(e: LinkEvent, token: Seq<char>) -> bool {
    match e {
        LinkEvent::Shared(s) => s.token@ == token,
        LinkEvent::Revoked(t) => t == token,
    }
}

/// The live link with a token after some events, where there was none before: the one that
/// was recorded last, unless it was revoked since.
pub open spec fn live_link(events: Seq<LinkEvent>, token: Seq<char>) -> Option<ShareRow>
    decreases events.len(),
{
    if events.len() == 0 {
        None
    } else if is_about(events.last(), token) {
        match events.last() {
            LinkEvent::Shared(s) => Some(s),
            LinkEvent::Revoked(_) => None,
        }
    } else {
        live_link(events.drop_last(), token)
    }
}

proof fn lemma_shares_after(events: Seq<LinkEvent>, token: Seq<char>)
    ensures
        table::distinct_keys(shares_after(Seq::empty(), events)),
        table::row(shares_after(Seq::empty(), events), token) == live_link(events, token),
    decreases events.len(),
{
    if events.len() == 0 {
        let none = Seq::<ShareRow>::empty();
        if table::has_row(none, token) {
            assert(table::is_slot(none, token, table::slot(none, token)));
        }
    } else {
        lemma_shares_after(events.drop_last(), token);
        let before = shares_after(Seq::empty(), events.drop_last());
        match events.last() {
            LinkEvent::Shared(s) => {
                law_links_are_found_by_token(before, s, token);
                table::lemma_without_row(before, s.token@);
                let rest = table::without_row(before, s.token@);
                table::lemma_with_row(rest, s);
                assert(!table::has_row(rest, s.key()));
                assert(table::with_row(rest, s) == rest.push(s));
            },
            LinkEvent::Revoked(t) => {
                table::lemma_without_row(before, t);
            },
        }
    }
}

/// After any links were shared and revoked, the list of links holds, newest first, exactly
/// the live ones, as they were recorded, and no token twice. `listed` stands for what
/// listing gives.
pub proof fn law_the_list_holds_the_live_links(
    events: Seq<LinkEvent>,
    listed: Seq<ShareRow>,
    token: Seq<char>,
)
    requires
        order::stably_sorted(shares_after(Seq::empty(), events), listed),
    ensures
        forall|i: int, j: int|
            0 <= i < j < listed.len() ==> (#[trigger] listed[i]).created_at >= (
            #[trigger] listed[j]).created_at,
        table::distinct_keys(listed),
        table::row(listed, token) == live_link(events, token),
{
    let shares = shares_after(Seq::empty(), events);
    lemma_shares_after(events, token);
    table::lemma_same_rows(shares, listed, token);
    assert forall|i: int, j: int| 0 <= i < j < listed.len() implies (
    #[trigger] listed[i]).created_at >= (#[trigger] listed[j]).created_at by {
        assert(order::Ranked::leads(listed[i], listed[j]));
    }
}

/// A file that is recorded keeps everything that is known of it, and counts as offloaded, also
/// where it was recorded as restored before.
pub proof fn law_records_are_kept_whole(items: Seq<Record>, r: Record)
    requires
        table::distinct_keys(items),
    ensures
        ({
            let found = table::row(table::with_row(items, as_offloaded(r)), r.path@);
            &&& found is Some
            &&& found->0.path@ == r.path@
            &&& found->0.hash@ == r.hash@
            &&& found->0.size == r.size
            &&& found->0.mode == r.mode
            &&& found->0.mtime == r.mtime
            &&& found->0.s3_key@ == r.s3_key@
            &&& found->0.offloaded_at == r.offloaded_at
            &&& !found->0.restored
        }),
{
    law_a_recorded_file_is_found(items, r, r.path@);
}

/// One more recorded file with a content adds one to its count, one with another content adds
/// none.
pub proof fn law_contents_are_counted_file_by_file(items: Seq<Record>, r: Record, hash: Seq<char>)
    ensures
        items.push(r).filter(|x: Record| x.hash@ == hash).len() == items.filter(
            |x: Record| x.hash@ == hash,
        ).len() + (if r.hash@ == hash {
            1int
        } else {
            0int
        }),
{
    lists::lemma_filter_push(items, r, |x: Record| x.hash@ == hash);
}

} // verus!

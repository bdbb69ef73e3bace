//! The items of the Stow folder: the files and folders that the file browser shows.
//!
//! Content is stored under its hash, with the key `fp/` and the hash, so that equal
//! files are stored once. A file is dataless while its bytes are only in the bucket.

use vstd::prelude::*;
use vstd::utf8::*;

use crate::config;
use crate::error::StowResult;
use crate::lists;
use crate::order;
use crate::table;
use crate::table::Keyed;
use crate::text;

verus! {

/// The identifier of the root folder.
pub const ROOT: &'static str = "NSFileProviderRootContainerItemIdentifier";

/// A file or folder of the Stow folder.
#[derive(Debug)]
pub struct Item {
    pub item_id: String,
    pub parent_id: String,
    pub filename: String,
    pub is_folder: bool,
    pub size: i64,
    pub content_type: String,
    pub hash: Option<String>,
    pub s3_key: Option<String>,
    /// Grows with every change of the content.
    pub version: i64,
    pub modified_at: i64,
    /// When the item was last created, changed or read.
    pub last_access: i64,
    /// True while the bytes are only in the bucket.
    pub dataless: bool,
}

/// The content of an `Item`.
pub struct ItemView {
    pub item_id: Seq<char>,
    pub parent_id: Seq<char>,
    pub filename: Seq<char>,
    pub is_folder: bool,
    pub size: i64,
    pub content_type: Seq<char>,
    pub hash: Option<Seq<char>>,
    pub s3_key: Option<Seq<char>>,
    pub version: i64,
    pub modified_at: i64,
    pub last_access: i64,
    pub dataless: bool,
}

impl View for Item {
    type V = ItemView;

    open spec fn view(&self) -> ItemView {
        ItemView {
            item_id: self.item_id@,
            parent_id: self.parent_id@,
            filename: self.filename@,
            is_folder: self.is_folder,
            size: self.size,
            content_type: self.content_type@,
            hash: text::text_opt(self.hash),
            s3_key: text::text_opt(self.s3_key),
            version: self.version,
            modified_at: self.modified_at,
            last_access: self.last_access,
            dataless: self.dataless,
        }
    }
}

impl Clone for Item {
    fn clone(&self) -> (r: Self)
        ensures
            r == *self,
    {
        Item {
            item_id: self.item_id.clone(),
            parent_id: self.parent_id.clone(),
            filename: self.filename.clone(),
            is_folder: self.is_folder,
            size: self.size,
            content_type: self.content_type.clone(),
            hash: self.hash.clone(),
            s3_key: self.s3_key.clone(),
            version: self.version,
            modified_at: self.modified_at,
            last_access: self.last_access,
            dataless: self.dataless,
        }
    }
}

impl Keyed for Item {
    open spec fn key(self) -> Seq<char> {
        self.item_id@
    }

    fn key_text(&self) -> (r: &str) {
        self.item_id.as_str()
    }

    fn copy_row(&self) -> (r: Self) {
        self.clone()
    }
}

/// Items are listed by name, in the order of the bytes.
impl order::Ranked for Item {
    open spec fn leads(self, other: Self) -> bool {
        order::bytes_le(encode_utf8(self.filename@), encode_utf8(other.filename@))
    }

    proof fn leads_total(a: Self, b: Self) {
        order::lemma_bytes_total(encode_utf8(a.filename@), encode_utf8(b.filename@));
    }

    proof fn leads_transitive(a: Self, b: Self, c: Self) {
        order::lemma_bytes_transitive(
            encode_utf8(a.filename@),
            encode_utf8(b.filename@),
            encode_utf8(c.filename@),
        );
    }

    fn may_lead(&self, other: &Self) -> (r: bool) {
        order::name_le(self.filename.as_str(), other.filename.as_str())
    }
}

/// Where the items are kept.
pub fn db_path(group_dir: Option<String>) -> (r: StowResult<Vec<u8>>)
    ensures
        match r {
            Ok(path) => config::is_support_file(group_dir, "provider.db"@, path@),
            Err(e) => config::no_support_dir(group_dir, e@),
        },
{
    config::support_file(group_dir, "provider.db")
}

/// The items of the Stow folder, by identifier.
pub struct Store {
    items: Vec<Item>,
}

/// Whether an item lies directly in a folder.
pub open spec fn lies_in(parent: Seq<char>) -> spec_fn(Item) -> bool {
    |it: Item| it.parent_id@ == parent
}

/// The items after one of them was changed by `change`.
pub open spec fn with_change(items: Seq<Item>, id: Seq<char>, change: spec_fn(Item) -> Item) -> Seq<
    Item,
> {
    if table::has_row(items, id) {
        let i = table::slot(items, id);
        items.update(i, change(items[i]))
    } else {
        items
    }
}

impl Store {
    /// The items, in the order in which they were first stored.
    pub closed spec fn items(self) -> Seq<Item> {
        self.items@
    }

    /// No two items have the same identifier.
    pub open spec fn wf(self) -> bool {
        table::distinct_keys(self.items())
    }

    /// A store that holds the given items; `None` where an identifier occurs twice.
    pub fn open(items: Vec<Item>) -> (r: Option<Store>)
        ensures
            match r {
                Some(x) => x.wf() && x.items() == items@,
                None => !table::distinct_keys(items@),
            },
    {
        if table::check_distinct(&items) {
            Some(Store { items })
        } else {
            None
        }
    }

    /// The items that lie directly in a folder, by name.
    pub fn children(&self, parent_id: &str) -> (r: Vec<Item>)
        ensures
            order::stably_sorted(self.items().filter(lies_in(parent_id@)), r@),
    {
        let ghost keep = lies_in(parent_id@);
        let mut out: Vec<Item> = Vec::new();
        let mut i: usize = 0;
        proof {
            lists::lemma_filter_ends(self.items@, keep);
        }
        while i < self.items.len()
            invariant
                i <= self.items.len(),
                keep == lies_in(parent_id@),
                out@ == self.items@.take(i as int).filter(keep),
            decreases self.items.len() - i,
        {
            proof {
                lists::lemma_filter_take(self.items@, i as int, keep);
            }
            if text::same(self.items[i].parent_id.as_str(), parent_id) {
                out.push(self.items[i].clone());
            }
            i += 1;
        }
        proof {
            lists::lemma_filter_ends(self.items@, keep);
        }
        order::sort(out)
    }

    /// The item with an identifier.
    pub fn get(&self, item_id: &str) -> (r: Option<Item>)
        requires
            self.wf(),
        ensures
            r == table::row(self.items(), item_id@),
    {
        table::get_row(&self.items, item_id)
    }

    /// Stores an item, in the place of one with the same identifier.
    pub fn upsert(&mut self, it: &Item)
        requires
            old(self).wf(),
        ensures
            final(self).wf(),
            final(self).items() == table::with_row(old(self).items(), *it),
    {
        proof {
            table::lemma_with_row(self.items@, *it);
        }
        match table::find_row(&self.items, it.item_id.as_str()) {
            Some(i) => {
                self.items.set(i, it.clone());
            },
            None => {
                self.items.push(it.clone());
            },
        }
    }

    /// Removes an item.
    pub fn delete(&mut self, item_id: &str)
        requires
            old(self).wf(),
        ensures
            final(self).wf(),
            final(self).items() == table::without_row(old(self).items(), item_id@),
    {
        table::delete_row(&mut self.items, item_id);
    }

    /// Tells whether the bytes of an item are only in the bucket.
    pub fn set_dataless(&mut self, item_id: &str, dataless: bool)
        requires
            old(self).wf(),
        ensures
            final(self).wf(),
            final(self).items() == with_change(
                old(self).items(),
                item_id@,
                |it: Item| Item { dataless, ..it },
            ),
    {
        match table::find_row(&self.items, item_id) {
            Some(i) => {
                let mut n = self.items[i].clone();
                n.dataless = dataless;
                proof {
                    assert(table::is_slot(self.items@, item_id@, i as int));
                    table::lemma_with_row(self.items@, n);
                }
                self.items.set(i, n);
            },
            None => {},
        }
    }

    /// Notes that an item was just read, so that a file in use is not offloaded.
    pub fn touch_access(&mut self, item_id: &str, ts: i64)
        requires
            old(self).wf(),
        ensures
            final(self).wf(),
            final(self).items() == with_change(
                old(self).items(),
                item_id@,
                |it: Item| Item { last_access: ts, ..it },
            ),
    {
        match table::find_row(&self.items, item_id) {
            Some(i) => {
                let mut n = self.items[i].clone();
                n.last_access = ts;
                proof {
                    assert(table::is_slot(self.items@, item_id@, i as int));
                    table::lemma_with_row(self.items@, n);
                }
                self.items.set(i, n);
            },
            None => {},
        }
    }
}

/// An item that is stored is found again as it was stored; other items stay.
pub proof fn law_a_stored_item_is_found(items: Seq<Item>, it: Item, other: Seq<char>)
    requires
        table::distinct_keys(items),
    ensures
        table::row(table::with_row(items, it), it.item_id@) == Some(it),
        other != it.item_id@ ==> table::row(table::with_row(items, it), other) == table::row(
            items,
            other,
        ),
{
    table::lemma_with_row(items, it);
}

/// An item that is deleted is not found; other items stay.
pub proof fn law_a_deleted_item_is_gone(items: Seq<Item>, id: Seq<char>, other: Seq<char>)
    requires
        table::distinct_keys(items),
    ensures
        table::row(table::without_row(items, id), id) is None,
        other != id ==> table::row(table::without_row(items, id), other) == table::row(
            items,
            other,
        ),
{
    table::lemma_without_row(items, id);
}

/// What is noted of one item changes no other.
pub proof fn law_notes_change_one_item(
    items: Seq<Item>,
    id: Seq<char>,
    change: spec_fn(Item) -> Item,
    other: Seq<char>,
)
    requires
        table::distinct_keys(items),
        forall|it: Item| (#[trigger] change(it)).item_id@ == it.item_id@,
    ensures
        table::row(with_change(items, id, change), id) == match table::row(items, id) {
            Some(it) => Some(change(it)),
            None => None,
        },
        other != id ==> table::row(with_change(items, id, change), other) == table::row(
            items,
            other,
        ),
{
    if table::has_row(items, id) {
        let i = table::slot(items, id);
        assert(table::is_slot(items, id, i));
        let new = change(items[i]);
        assert(new.key() == id);
        table::lemma_with_row(items, new);
        assert(with_change(items, id, change) == table::with_row(items, new));
    }
}

/// The items of a folder are those whose parent it is, each of them, in the order of the bytes
/// of their names. `listed` stands for what listing gives.
pub proof fn law_children_are_listed_by_name(
    items: Seq<Item>,
    parent: Seq<char>,
    listed: Seq<Item>,
    it: Item,
)
    requires
        order::stably_sorted(items.filter(lies_in(parent)), listed),
    ensures
        listed.contains(it) == (items.contains(it) && it.parent_id@ == parent),
        forall|i: int, j: int|
            0 <= i < j < listed.len() ==> order::bytes_le(
                encode_utf8((#[trigger] listed[i]).filename@),
                encode_utf8((#[trigger] listed[j]).filename@),
            ),
{
    let keep = lies_in(parent);
    let kept = items.filter(keep);
    order::law_sorting_keeps_everything(kept, listed, it);
    assert(kept.contains(it) == (items.contains(it) && it.parent_id@ == parent)) by {
        broadcast use vstd::seq_lib::group_filter_ensures;

        if items.contains(it) && keep(it) {
            let i = choose|i: int| 0 <= i < items.len() && items[i] == it;
            items.lemma_filter_contains(keep, i);
        }
        if kept.contains(it) {
            let k = choose|k: int| 0 <= k < kept.len() && kept[k] == it;
            items.lemma_filter_pred(keep, k);
            items.lemma_filter_contains_rev(keep, it);
        }
    }
    assert forall|i: int, j: int| 0 <= i < j < listed.len() implies order::bytes_le(
        encode_utf8((#[trigger] listed[i]).filename@),
        encode_utf8((#[trigger] listed[j]).filename@),
    ) by {
        assert(order::Ranked::leads(listed[i], listed[j]));
    }
}

} // verus!

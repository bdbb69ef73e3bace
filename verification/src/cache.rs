//! Caches of developer tools: large directories whose content a tool fetches or builds
//! again when it is missed.
//!
//! They are deleted, never offloaded: a tool that finds a placeholder where it expects
//! its data breaks, one that finds nothing fetches the data again. Only directories that
//! are nothing but caches are known here: no source, no credentials, no installed tools.

use vstd::prelude::*;
use vstd::utf8::*;

use crate::config;
use crate::error::{Fault, StowError, StowResult};
use crate::lists;
use crate::order;
use crate::text;

verus! {

/// The known caches: the name to show, the place within the home directory, and how the
/// data comes back.
pub open spec fn known_caches() -> Seq<(Seq<char>, Seq<char>, Seq<char>)> {
    seq![
        ("npm"@, ".npm/_cacache"@, "re-fetched by npm"@),
        ("bun"@, ".bun/install/cache"@, "re-fetched by bun"@),
        ("uv"@, ".cache/uv"@, "re-fetched by uv"@),
        ("uv"@, "Library/Caches/uv"@, "re-fetched by uv"@),
        ("pip"@, ".cache/pip"@, "re-fetched by pip"@),
        ("pip"@, "Library/Caches/pip"@, "re-fetched by pip"@),
        ("yarn"@, ".cache/yarn"@, "re-fetched by yarn"@),
        ("yarn"@, "Library/Caches/Yarn"@, "re-fetched by yarn"@),
        ("pnpm"@, ".pnpm-store"@, "re-fetched by pnpm"@),
        ("huggingface"@, ".cache/huggingface"@, "models re-download on use"@),
        ("gradle"@, ".gradle/caches"@, "re-fetched by gradle"@),
        ("cargo (registry cache)"@, ".cargo/registry/cache"@, "re-fetched by cargo"@),
        ("cargo (registry src)"@, ".cargo/registry/src"@, "re-extracted by cargo"@),
        ("go (build)"@, "Library/Caches/go-build"@, "rebuilt by go"@),
        ("go (mod download)"@, "go/pkg/mod/cache/download"@, "re-fetched by go"@),
        ("deno"@, "Library/Caches/deno"@, "re-fetched by deno"@),
        ("pre-commit"@, ".cache/pre-commit"@, "re-created by pre-commit"@),
        ("zig"@, ".cache/zig"@, "rebuilt by zig"@),
        ("playwright"@, "Library/Caches/ms-playwright"@, "re-downloaded"@),
        ("puppeteer"@, ".cache/puppeteer"@, "re-downloaded"@),
        ("electron"@, ".cache/electron"@, "re-downloaded"@),
        ("cocoapods"@, "Library/Caches/CocoaPods"@, "re-fetched by pod"@),
        ("Xcode DerivedData"@, "Library/Developer/Xcode/DerivedData"@, "rebuilt by Xcode"@),
    ]
}

/// The texts of a list of caches.
pub open spec fn cache_texts(v: Seq<(&'static str, &'static str, &'static str)>) -> Seq<
    (Seq<char>, Seq<char>, Seq<char>),
> {
    v.map_values(|k: (&'static str, &'static str, &'static str)| (k.0@, k.1@, k.2@))
}

/// The known caches: the name to show, the place within the home directory, and how the
/// data comes back.
pub(crate) fn known() -> (r: Vec<(&'static str, &'static str, &'static str)>)
    ensures
        cache_texts(r@) == known_caches(),
{
    let r = vec![
        ("npm", ".npm/_cacache", "re-fetched by npm"),
        ("bun", ".bun/install/cache", "re-fetched by bun"),
        ("uv", ".cache/uv", "re-fetched by uv"),
        ("uv", "Library/Caches/uv", "re-fetched by uv"),
        ("pip", ".cache/pip", "re-fetched by pip"),
        ("pip", "Library/Caches/pip", "re-fetched by pip"),
        ("yarn", ".cache/yarn", "re-fetched by yarn"),
        ("yarn", "Library/Caches/Yarn", "re-fetched by yarn"),
        ("pnpm", ".pnpm-store", "re-fetched by pnpm"),
        ("huggingface", ".cache/huggingface", "models re-download on use"),
        ("gradle", ".gradle/caches", "re-fetched by gradle"),
        ("cargo (registry cache)", ".cargo/registry/cache", "re-fetched by cargo"),
        ("cargo (registry src)", ".cargo/registry/src", "re-extracted by cargo"),
        ("go (build)", "Library/Caches/go-build", "rebuilt by go"),
        ("go (mod download)", "go/pkg/mod/cache/download", "re-fetched by go"),
        ("deno", "Library/Caches/deno", "re-fetched by deno"),
        ("pre-commit", ".cache/pre-commit", "re-created by pre-commit"),
        ("zig", ".cache/zig", "rebuilt by zig"),
        ("playwright", "Library/Caches/ms-playwright", "re-downloaded"),
        ("puppeteer", ".cache/puppeteer", "re-downloaded"),
        ("electron", ".cache/electron", "re-downloaded"),
        ("cocoapods", "Library/Caches/CocoaPods", "re-fetched by pod"),
        ("Xcode DerivedData", "Library/Developer/Xcode/DerivedData", "rebuilt by Xcode"),
    ];
    assert(cache_texts(r@) =~= known_caches());
    r
}

/// A cache that can be deleted.
#[derive(Debug)]
pub struct CacheEntry {
    pub name: String,
    pub path: String,
    pub size_bytes: i64,
    pub idle_days: i64,
    /// How the data comes back after deletion.
    pub regenerates: String,
    pub removed: bool,
}

/// The content of a `CacheEntry`.
pub struct CacheEntryView {
    pub name: Seq<char>,
    pub path: Seq<char>,
    pub size_bytes: i64,
    pub idle_days: i64,
    pub regenerates: Seq<char>,
    pub removed: bool,
}

impl View for CacheEntry {
    type V = CacheEntryView;

    open spec fn view(&self) -> CacheEntryView {
        CacheEntryView {
            name: self.name@,
            path: self.path@,
            size_bytes: self.size_bytes,
            idle_days: self.idle_days,
            regenerates: self.regenerates@,
            removed: self.removed,
        }
    }
}

impl Clone for CacheEntry {
    fn clone(&self) -> (r: Self)
        ensures
            r == *self,
    {
        CacheEntry {
            name: self.name.clone(),
            path: self.path.clone(),
            size_bytes: self.size_bytes,
            idle_days: self.idle_days,
            regenerates: self.regenerates.clone(),
            removed: self.removed,
        }
    }
}

/// Caches are listed largest first.
impl order::Ranked for CacheEntry {
    open spec fn leads(self, other: Self) -> bool {
        self.size_bytes >= other.size_bytes
    }

    proof fn leads_total(a: Self, b: Self) {
    }

    proof fn leads_transitive(a: Self, b: Self, c: Self) {
    }

    fn may_lead(&self, other: &Self) -> (r: bool) {
        self.size_bytes >= other.size_bytes
    }
}

/// The content of a list of caches.
pub open spec fn entries_of(v: Seq<CacheEntry>) -> Seq<CacheEntryView> {
    v.map_values(|e: CacheEntry| e@)
}

// ---- measuring ------------------------------------------------------------------

/// A point in time: seconds since 1970, and nanoseconds on top.
#[derive(Clone, Copy, Debug)]
pub struct Moment {
    pub secs: i64,
    pub nanos: u32,
}

impl Moment {
    /// Nanoseconds since 1970.
    pub open spec fn total(self) -> int {
        self.secs * 1_000_000_000 + self.nanos
    }

    fn total_nanos(self) -> (r: i128)
        ensures
            r == self.total(),
    {
        (self.secs as i128) * 1_000_000_000 + (self.nanos as i128)
    }
}

/// What is known of one entry below a cache's directory.
#[derive(Clone, Copy, Debug)]
pub struct Sighting {
    pub is_file: bool,
    pub len: i64,
    pub modified: Option<Moment>,
}

/// What an entry adds to the size of a cache.
pub open spec fn counted(s: Sighting) -> int {
    if s.is_file {
        s.len as int
    } else {
        0
    }
}

/// What the entries add to the size of a cache.
pub open spec fn counted_all(seen: Seq<Sighting>) -> Seq<int> {
    seen.map_values(|s: Sighting| counted(s))
}

/// The latest modification of some entries, in nanoseconds since 1970, but not before
/// 1970.
pub open spec fn latest(seen: Seq<Sighting>) -> int
    decreases seen.len(),
{
    if seen.len() == 0 {
        0
    } else {
        let front = latest(seen.drop_last());
        match seen.last().modified {
            Some(m) => if m.total() > front {
                m.total()
            } else {
                front
            },
            None => front,
        }
    }
}

/// The size of a cache, and when something in it was last changed.
pub fn measure(seen: &Vec<Sighting>) -> (r: (i64, Moment))
    requires
        lists::sums_fit(counted_all(seen@)),
    ensures
        r.0 == lists::sum(counted_all(seen@)),
        r.1.total() == latest(seen@),
{
    let ghost all = counted_all(seen@);
    let mut size: i64 = 0;
    let mut newest = Moment { secs: 0, nanos: 0 };
    let mut i: usize = 0;
    assert(lists::sum(all.take(0)) == 0);
    assert(seen@.take(0) =~= Seq::<Sighting>::empty());
    while i < seen.len()
        invariant
            i <= seen.len(),
            all == counted_all(seen@),
            lists::sums_fit(all),
            size == lists::sum(all.take(i as int)),
            newest.total() == latest(seen@.take(i as int)),
        decreases seen.len() - i,
    {
        proof {
            lists::lemma_sum_take(all, i as int);
            assert(all[i as int] == counted(seen@[i as int]));
            assert(i64::MIN <= lists::sum(all.take(i + 1)) <= i64::MAX);
            assert(seen@.take(i + 1).drop_last() =~= seen@.take(i as int));
        }
        let s = seen[i];
        if s.is_file {
            size = size + s.len;
        }
        match s.modified {
            Some(m) => {
                if m.total_nanos() > newest.total_nanos() {
                    newest = m;
                }
            },
            None => {},
        }
        i += 1;
    }
    assert(all.take(all.len() as int) =~= all);
    assert(seen@.take(seen@.len() as int) =~= seen@);
    (size, newest)
}

/// Tells whether the size of a cache is in range.
pub fn check_measure(seen: &Vec<Sighting>) -> (r: bool)
    ensures
        r == lists::sums_fit(counted_all(seen@)),
{
    let mut v: Vec<i64> = Vec::new();
    let mut i: usize = 0;
    while i < seen.len()
        invariant
            i <= seen.len(),
            v@.len() == i,
            forall|j: int| 0 <= j < i ==> v@[j] == counted(#[trigger] seen@[j]),
        decreases seen.len() - i,
    {
        let n: i64 = if seen[i].is_file {
            seen[i].len
        } else {
            0
        };
        v.push(n);
        i += 1;
    }
    assert(v@.map_values(|x: i64| x as int) =~= counted_all(seen@));
    lists::check_sums(&v)
}

// ---- scanning -------------------------------------------------------------------

/// The paths of the known caches below a home directory.
pub open spec fn places_under(home: Seq<u8>) -> Seq<Seq<u8>> {
    known_caches().map_values(
        |k: (Seq<char>, Seq<char>, Seq<char>)| text::joined_bytes(home, encode_utf8(k.1)),
    )
}

/// The places of the known caches, when the home directory is `home`.
pub fn places_in(home: Option<Vec<u8>>) -> (r: StowResult<Vec<Vec<u8>>>)
    ensures
        match r {
            Ok(v) => home is Some && text::raws(v@) == places_under(home->0@),
            Err(e) => home is None && e@ == Fault::Io("cannot resolve home directory"@),
        },
{
    match home {
        None => Err(StowError::Io("cannot resolve home directory".to_owned())),
        Some(h) => {
            let list = known();
            let mut out: Vec<Vec<u8>> = Vec::new();
            let mut i: usize = 0;
            while i < list.len()
                invariant
                    i <= list.len(),
                    cache_texts(list@) == known_caches(),
                    out@.len() == i,
                    forall|j: int|
                        0 <= j < i ==> (#[trigger] out@[j])@ == text::joined_bytes(
                            h@,
                            encode_utf8(known_caches()[j].1),
                        ),
                decreases list.len() - i,
            {
                assert(cache_texts(list@)[i as int].1 == list@[i as int].1@);
                out.push(text::join_bytes(h.as_slice(), list[i].1.as_bytes()));
                i += 1;
            }
            assert(known_caches().len() == cache_texts(list@).len());
            assert(text::raws(out@) =~= places_under(h@));
            Ok(out)
        },
    }
}

/// The places of the known caches.
pub fn places() -> (r: StowResult<Vec<Vec<u8>>>)
    ensures
        match r {
            Ok(v) => exists|home: Seq<u8>| text::raws(v@) == #[trigger] places_under(home),
            Err(e) => e@ == Fault::Io("cannot resolve home directory"@),
        },
{
    places_in(config::home_dir())
}

/// Whole days between two points in time; none where the first is the later.
pub open spec fn idle(newest: int, now: int) -> int {
    if now >= newest {
        ((now - newest) / 1_000_000_000) / 86_400
    } else {
        0
    }
}

/// What a known cache is listed as, if it is there, not empty, and was not changed for
/// long enough. `found` is its size and the time of its latest change.
pub open spec fn listing(
    known: (Seq<char>, Seq<char>, Seq<char>),
    path: Seq<char>,
    found: Option<(i64, Moment)>,
    min_idle_days: u64,
    now: Moment,
) -> Option<CacheEntryView> {
    match found {
        None => None,
        Some(f) => {
            let days = idle(f.1.total(), now.total());
            if f.0 == 0 || days < min_idle_days {
                None
            } else {
                Some(
                    CacheEntryView {
                        name: known.0,
                        path,
                        size_bytes: f.0,
                        idle_days: days as i64,
                        regenerates: known.2,
                        removed: false,
                    },
                )
            }
        },
    }
}

/// Some paths as text.
pub open spec fn shown(paths: Seq<Vec<u8>>) -> Seq<Seq<char>> {
    paths.map_values(|p: Vec<u8>| text::utf8_lossy(p@))
}

/// The known caches with their places and what was found there.
pub open spec fn surveyed(paths: Seq<Seq<char>>, found: Seq<Option<(i64, Moment)>>) -> Seq<
    ((Seq<char>, Seq<char>, Seq<char>), Seq<char>, Option<(i64, Moment)>),
> {
    Seq::new(known_caches().len(), |i: int| (known_caches()[i], paths[i], found[i]))
}

/// The caches that qualify, in the order in which they are known.
pub open spec fn listings(
    paths: Seq<Seq<char>>,
    found: Seq<Option<(i64, Moment)>>,
    min_idle_days: u64,
    now: Moment,
) -> Seq<CacheEntryView> {
    surveyed(paths, found).filter_map(
        |s: ((Seq<char>, Seq<char>, Seq<char>), Seq<char>, Option<(i64, Moment)>)|
            listing(s.0, s.1, s.2, min_idle_days, now),
    )
}

fn list_one(
    known: &(&'static str, &'static str, &'static str),
    path: &str,
    found: Option<(i64, Moment)>,
    min_idle_days: u64,
    now: Moment,
) -> (r: Option<CacheEntry>)
    ensures
        match r {
            Some(e) => Some(e@),
            None => None,
        } == listing((known.0@, known.1@, known.2@), path@, found, min_idle_days, now),
{
    match found {
        None => None,
        Some(f) => {
            if f.0 == 0 {
                return None;
            }
            let newest = f.1.total_nanos();
            let at = now.total_nanos();
            let days: i128 = if at >= newest {
                let gap: i128 = at - newest;
                assert(gap / 1_000_000_000 <= 18_446_744_073_709_551_621);
                (gap / 1_000_000_000) / 86_400
            } else {
                0
            };
            if days < min_idle_days as i128 {
                return None;
            }
            Some(
                CacheEntry {
                    name: known.0.to_owned(),
                    path: path.to_owned(),
                    size_bytes: f.0,
                    idle_days: days as i64,
                    regenerates: known.2.to_owned(),
                    removed: false,
                },
            )
        },
    }
}

/// The known caches that are there, not empty, and were not changed for at least
/// `min_idle_days`, largest first. `paths` are the places of the known caches, `found`
/// what was measured at each, where there is something.
pub fn scan(
    min_idle_days: u64,
    paths: &Vec<Vec<u8>>,
    found: &Vec<Option<(i64, Moment)>>,
    now: Moment,
) -> (r: Vec<CacheEntry>)
    requires
        paths.len() == known_caches().len(),
        found.len() == known_caches().len(),
    ensures
        exists|c: Seq<CacheEntry>| #[trigger]
            order::stably_sorted(c, r@) && entries_of(c) == listings(
                shown(paths@),
                found@,
                min_idle_days,
                now,
            ),
{
    let list = known();
    let ghost all = surveyed(shown(paths@), found@);
    let ghost f = |s: ((Seq<char>, Seq<char>, Seq<char>), Seq<char>, Option<(i64, Moment)>)|
        listing(s.0, s.1, s.2, min_idle_days, now);
    assert(known_caches().len() == cache_texts(list@).len());
    let mut out: Vec<CacheEntry> = Vec::new();
    let mut i: usize = 0;
    assert(all.take(0).filter_map(f) =~= Seq::<CacheEntryView>::empty());
    assert(entries_of(out@) =~= Seq::<CacheEntryView>::empty());
    while i < list.len()
        invariant
            i <= list.len(),
            list@.len() == known_caches().len(),
            paths.len() == known_caches().len(),
            found.len() == known_caches().len(),
            cache_texts(list@) == known_caches(),
            all == surveyed(shown(paths@), found@),
            f == (|s: ((Seq<char>, Seq<char>, Seq<char>), Seq<char>, Option<(i64, Moment)>)|
                listing(s.0, s.1, s.2, min_idle_days, now)),
            entries_of(out@) == all.take(i as int).filter_map(f),
        decreases list.len() - i,
    {
        let ghost old_out = out@;
        proof {
            assert(all.take(i + 1).drop_last() =~= all.take(i as int));
            assert(cache_texts(list@)[i as int] == (
                list@[i as int].0@,
                list@[i as int].1@,
                list@[i as int].2@,
            ));
            assert(shown(paths@)[i as int] == text::utf8_lossy(paths@[i as int]@));
        }
        let path = text::lossy(paths[i].as_slice());
        match list_one(&list[i], path.as_str(), found[i], min_idle_days, now) {
            Some(e) => {
                let ghost ev = e@;
                out.push(e);
                assert(entries_of(out@) =~= entries_of(old_out) + seq![ev]);
            },
            None => {},
        }
        i += 1;
    }
    assert(all.take(all.len() as int) =~= all);
    let ghost unsorted = out@;
    let r = order::sort(out);
    assert(order::stably_sorted(unsorted, r@));
    r
}

// ---- cleaning -------------------------------------------------------------------

/// What came of cleaning up.
pub struct CleanReport {
    pub min_idle_days: u64,
    pub applied: bool,
    pub reclaimable_bytes: i64,
    pub freed_bytes: i64,
    pub entries: Vec<CacheEntry>,
}

/// The sizes of some caches.
pub open spec fn sizes(entries: Seq<CacheEntryView>) -> Seq<int> {
    entries.map_values(|e: CacheEntryView| e.size_bytes as int)
}

/// The sizes of the caches that were removed.
pub open spec fn freed(entries: Seq<CacheEntryView>) -> Seq<int> {
    entries.map_values(
        |e: CacheEntryView|
            if e.removed {
                e.size_bytes as int
            } else {
                0
            },
    )
}

/// Whether the sizes are no debts, and their total is in range.
pub open spec fn sizes_fit(entries: Seq<CacheEntryView>) -> bool {
    &&& forall|i: int| 0 <= i < entries.len() ==> 0 <= (#[trigger] entries[i]).size_bytes
    &&& lists::sums_fit(sizes(entries))
}

/// Tells whether the sizes are no debts, and their total is in range.
pub fn check_sizes(entries: &Vec<CacheEntry>) -> (r: bool)
    ensures
        r == sizes_fit(entries_of(entries@)),
{
    let mut v: Vec<i64> = Vec::new();
    let mut i: usize = 0;
    while i < entries.len()
        invariant
            i <= entries.len(),
            v@.len() == i,
            forall|j: int| 0 <= j < i ==> v@[j] == (#[trigger] entries@[j]).size_bytes,
            forall|j: int| 0 <= j < i ==> 0 <= (#[trigger] entries_of(entries@)[j]).size_bytes,
        decreases entries.len() - i,
    {
        assert(entries_of(entries@)[i as int] == entries@[i as int]@);
        if entries[i].size_bytes < 0 {
            return false;
        }
        v.push(entries[i].size_bytes);
        i += 1;
    }
    assert(v@.map_values(|x: i64| x as int) =~= sizes(entries_of(entries@)));
    lists::check_sums(&v)
}

/// The caches after those for which `removed` says so were deleted.
pub open spec fn after_removal(entries: Seq<CacheEntryView>, removed: Seq<bool>) -> Seq<
    CacheEntryView,
> {
    Seq::new(
        entries.len(),
        |i: int| CacheEntryView { removed: removed[i], ..entries[i] },
    )
}

/// Reports on cleaning up: what could be freed and, where the deletions were made
/// (`apply`), what was. `removed` says for each cache whether its deletion worked.
pub fn clean(
    min_idle_days: u64,
    apply: bool,
    entries: Vec<CacheEntry>,
    removed: &Vec<bool>,
) -> (r: CleanReport)
    requires
        sizes_fit(entries_of(entries@)),
        apply ==> removed.len() == entries.len(),
    ensures
        r.min_idle_days == min_idle_days,
        r.applied == apply,
        r.reclaimable_bytes == lists::sum(sizes(entries_of(entries@))),
        apply ==> entries_of(r.entries@) == after_removal(entries_of(entries@), removed@),
        apply ==> r.freed_bytes == lists::sum(freed(entries_of(r.entries@))),
        !apply ==> r.entries@ == entries@,
        !apply ==> r.freed_bytes == 0,
{
    let ghost all = entries_of(entries@);
    let ghost after = after_removal(all, removed@);
    let ghost costs = sizes(all);
    let ghost gains = freed(after);
    let mut total: i64 = 0;
    let mut gained: i64 = 0;
    let mut out: Vec<CacheEntry> = Vec::new();
    let mut i: usize = 0;
    assert(lists::sum(costs.take(0)) == 0);
    assert(lists::sum(gains.take(0)) == 0);
    assert(entries_of(out@) =~= after.take(0));
    while i < entries.len()
        invariant
            i <= entries.len(),
            apply ==> removed.len() == entries.len(),
            all == entries_of(entries@),
            after == after_removal(all, removed@),
            costs == sizes(all),
            gains == freed(after),
            sizes_fit(all),
            total == lists::sum(costs.take(i as int)),
            apply ==> gained == lists::sum(gains.take(i as int)),
            !apply ==> gained == 0,
            0 <= gained <= total,
            apply ==> entries_of(out@) == after.take(i as int),
            !apply ==> out@ == entries@.take(i as int),
        decreases entries.len() - i,
    {
        let ghost old_out = out@;
        proof {
            lists::lemma_sum_take(costs, i as int);
            lists::lemma_sum_take(gains, i as int);
            assert(all[i as int] == entries@[i as int]@);
            assert(all[i as int].size_bytes >= 0);
            assert(i64::MIN <= lists::sum(costs.take(i + 1)) <= i64::MAX);
        }
        let mut e = entries[i].clone();
        total = total + e.size_bytes;
        if apply {
            e.removed = removed[i];
            if removed[i] {
                gained = gained + e.size_bytes;
            }
        }
        let ghost ev = e@;
        out.push(e);
        i += 1;
        proof {
            if apply {
                assert(ev == after[i - 1]);
                assert(entries_of(out@) =~= entries_of(old_out).push(ev));
                assert(entries_of(out@) =~= after.take(i as int));
            } else {
                assert(out@ =~= entries@.take(i as int));
            }
        }
    }
    assert(costs.take(costs.len() as int) =~= costs);
    assert(gains.take(gains.len() as int) =~= gains);
    assert(after.take(after.len() as int) =~= after);
    assert(entries@.take(entries@.len() as int) =~= entries@);
    CleanReport {
        min_idle_days,
        applied: apply,
        reclaimable_bytes: total,
        freed_bytes: gained,
        entries: out,
    }
}

/// What is freed is never more than what could be freed, whichever deletions worked.
pub proof fn law_freed_at_most_reclaimable(entries: Seq<CacheEntryView>, removed: Seq<bool>)
    requires
        sizes_fit(entries),
    ensures
        0 <= lists::sum(freed(after_removal(entries, removed))) <= lists::sum(sizes(entries)),
    decreases entries.len(),
{
    let after = after_removal(entries, removed);
    if entries.len() > 0 {
        let front = entries.drop_last();
        assert(sizes(entries).drop_last() =~= sizes(front));
        assert(freed(after).drop_last() =~= freed(after_removal(front, removed)));
        assert(entries[entries.len() - 1].size_bytes >= 0);
        assert forall|i: int| 0 <= i < front.len() implies 0 <= (
        #[trigger] front[i]).size_bytes by {
            assert(0 <= entries[i].size_bytes);
        }
        assert forall|i: int| 0 <= i <= sizes(front).len() implies i64::MIN
            <= #[trigger] lists::sum(sizes(front).take(i)) <= i64::MAX by {
            assert(sizes(front).take(i) =~= sizes(entries).take(i));
        }
        law_freed_at_most_reclaimable(front, removed);
    }
}

/// A cache that was in use less than `min_idle_days` ago is never listed.
pub proof fn law_busy_caches_are_not_listed(
    known: (Seq<char>, Seq<char>, Seq<char>),
    path: Seq<char>,
    found: (i64, Moment),
    min_idle_days: u64,
    now: Moment,
)
    requires
        now.total() - found.1.total() < min_idle_days * 86_400_000_000_000,
        0 < min_idle_days,
    ensures
        listing(known, path, Some(found), min_idle_days, now) is None,
{
    let gap = now.total() - found.1.total();
    if gap >= 0 {
        assert((gap / 1_000_000_000) / 86_400 < min_idle_days) by (nonlinear_arith)
            requires
                gap >= 0,
                gap < min_idle_days * 86_400_000_000_000,
        ;
    }
}

proof fn lemma_not_prefix(p: Seq<char>, s: Seq<char>, k: int)
    requires
        0 <= k < p.len(),
        k < s.len(),
        p[k] != s[k],
    ensures
        !p.is_prefix_of(s),
{
    if p.is_prefix_of(s) {
        assert(p == s.subrange(0, p.len() as int));
        assert(s.subrange(0, p.len() as int)[k] == s[k]);
    }
}

/// What begins with another letter than credentials, installed toolchains and installed
/// programs lies among none of them.
proof fn lemma_apart(p: Seq<char>)
    requires
        p.len() >= 8,
        p[0] == '.' ==> {
            &&& p[1] != 's' && p[1] != 'a' && p[1] != 'r'
            &&& p[1] == 'g' ==> p[2] != 'h'
            &&& p[1] == 'c' ==> p[3] != 'r' || p[7] != 'b'
        },
    ensures
        !".ssh"@.is_prefix_of(p),
        !".aws"@.is_prefix_of(p),
        !".rustup"@.is_prefix_of(p),
        !".ghcup"@.is_prefix_of(p),
        !".cargo/bin"@.is_prefix_of(p),
{
    reveal_strlit(".ssh");
    reveal_strlit(".aws");
    reveal_strlit(".rustup");
    reveal_strlit(".ghcup");
    reveal_strlit(".cargo/bin");
    let first = if p[0] != '.' {
        0int
    } else {
        1int
    };
    lemma_not_prefix(".ssh"@, p, first);
    lemma_not_prefix(".aws"@, p, first);
    lemma_not_prefix(".rustup"@, p, first);
    lemma_not_prefix(".ghcup"@, p, if p[first] != ".ghcup"@[first] { first } else { 2 });
    lemma_not_prefix(
        ".cargo/bin"@,
        p,
        if p[first] != ".cargo/bin"@[first] {
            first
        } else if p[3] != 'r' {
            3
        } else {
            7
        },
    );
}

/// How the places of the known caches begin: they are relative, and apart from credentials,
/// installed toolchains and installed programs.
pub proof fn lemma_places(i: int)
    requires
        0 <= i < known_caches().len(),
    ensures
        ({
            let p = known_caches()[i].1;
            &&& p.len() >= 8
            &&& p[0] != '/'
            &&& p[0] == '.' ==> {
                &&& p[1] != 's' && p[1] != 'a' && p[1] != 'r'
                &&& p[1] == 'g' ==> p[2] != 'h'
                &&& p[1] == 'c' ==> p[3] != 'r' || p[7] != 'b'
            }
        }),
{
    reveal_strlit(".npm/_cacache");
    reveal_strlit(".bun/install/cache");
    reveal_strlit(".cache/uv");
    reveal_strlit("Library/Caches/uv");
    reveal_strlit(".cache/pip");
    reveal_strlit("Library/Caches/pip");
    reveal_strlit(".cache/yarn");
    reveal_strlit("Library/Caches/Yarn");
    reveal_strlit(".pnpm-store");
    reveal_strlit(".cache/huggingface");
    reveal_strlit(".gradle/caches");
    reveal_strlit(".cargo/registry/cache");
    reveal_strlit(".cargo/registry/src");
    reveal_strlit("Library/Caches/go-build");
    reveal_strlit("go/pkg/mod/cache/download");
    reveal_strlit("Library/Caches/deno");
    reveal_strlit(".cache/pre-commit");
    reveal_strlit(".cache/zig");
    reveal_strlit("Library/Caches/ms-playwright");
    reveal_strlit(".cache/puppeteer");
    reveal_strlit(".cache/electron");
    reveal_strlit("Library/Caches/CocoaPods");
    reveal_strlit("Library/Developer/Xcode/DerivedData");
}

/// No known cache lies among credentials, installed toolchains or installed programs.
pub proof fn law_caches_are_only_caches(i: int)
    requires
        0 <= i < known_caches().len(),
    ensures
        !".ssh"@.is_prefix_of(known_caches()[i].1),
        !".aws"@.is_prefix_of(known_caches()[i].1),
        !".rustup"@.is_prefix_of(known_caches()[i].1),
        !".ghcup"@.is_prefix_of(known_caches()[i].1),
        !".cargo/bin"@.is_prefix_of(known_caches()[i].1),
{
    lemma_places(i);
    lemma_apart(known_caches()[i].1);
}

/// A cache that is there, not empty, and was not changed for at least `min_idle_days`, is
/// listed as it is known, with its size and the whole days since its last change.
pub proof fn law_idle_caches_are_listed(
    known: (Seq<char>, Seq<char>, Seq<char>),
    path: Seq<char>,
    found: (i64, Moment),
    min_idle_days: u64,
    now: Moment,
)
    requires
        found.0 != 0,
        now.secs * 1_000_000_000 + now.nanos - (found.1.secs * 1_000_000_000 + found.1.nanos)
            >= min_idle_days * 86_400_000_000_000,
    ensures
        ({
            let gap = now.secs * 1_000_000_000 + now.nanos - (found.1.secs * 1_000_000_000
                + found.1.nanos);
            let listed = listing(known, path, Some(found), min_idle_days, now);
            &&& listed is Some
            &&& listed->0.name == known.0
            &&& listed->0.path == path
            &&& listed->0.size_bytes == found.0
            &&& listed->0.regenerates == known.2
            &&& !listed->0.removed
            &&& gap <= i64::MAX ==> listed->0.idle_days * 86_400_000_000_000 <= gap && gap < (
            listed->0.idle_days + 1) * 86_400_000_000_000
        }),
{
    let gap = now.total() - found.1.total();
    let days = (gap / 1_000_000_000) / 86_400;
    assert(days >= min_idle_days && days * 86_400_000_000_000 <= gap && gap < (days + 1)
        * 86_400_000_000_000) by (nonlinear_arith)
        requires
            gap >= min_idle_days * 86_400_000_000_000,
            gap >= 0,
            days == (gap / 1_000_000_000) / 86_400,
    ;
}

/// A cache that is not there, or is empty, is not listed, however long it was idle.
pub proof fn law_empty_caches_are_not_listed(
    known: (Seq<char>, Seq<char>, Seq<char>),
    path: Seq<char>,
    at: Moment,
    min_idle_days: u64,
    now: Moment,
)
    ensures
        listing(known, path, None, min_idle_days, now) is None,
        listing(known, path, Some((0i64, at)), min_idle_days, now) is None,
{
}

/// Each known cache is judged by what was found at its own place: it is among those that
/// qualify exactly if it is listed on its own.
pub proof fn law_caches_are_judged_one_by_one(
    paths: Seq<Seq<char>>,
    found: Seq<Option<(i64, Moment)>>,
    min_idle_days: u64,
    now: Moment,
    e: CacheEntryView,
)
    ensures
        listings(paths, found, min_idle_days, now).contains(e) <==> exists|i: int|
            0 <= i < known_caches().len() && #[trigger] listing(
                known_caches()[i],
                paths[i],
                found[i],
                min_idle_days,
                now,
            ) == Some(e),
{
    let all = surveyed(paths, found);
    let f = |s: ((Seq<char>, Seq<char>, Seq<char>), Seq<char>, Option<(i64, Moment)>)|
        listing(s.0, s.1, s.2, min_idle_days, now);
    let out = all.filter_map(f);
    if out.contains(e) {
        all.lemma_filter_map_contains(f, e);
        let t = choose|t: ((Seq<char>, Seq<char>, Seq<char>), Seq<char>, Option<(i64, Moment)>)|
            #[trigger] all.contains(t) && f(t) == Some(e);
        let i = choose|i: int| 0 <= i < all.len() && all[i] == t;
        assert(listing(known_caches()[i], paths[i], found[i], min_idle_days, now) == Some(e));
    }
    if exists|i: int|
        0 <= i < known_caches().len() && #[trigger] listing(
            known_caches()[i],
            paths[i],
            found[i],
            min_idle_days,
            now,
        ) == Some(e) {
        let i = choose|i: int|
            0 <= i < known_caches().len() && #[trigger] listing(
                known_caches()[i],
                paths[i],
                found[i],
                min_idle_days,
                now,
            ) == Some(e);
        assert(all[i] == (known_caches()[i], paths[i], found[i]));
        assert(f(all[i]) == Some(e));
        lemma_kept(all, f, i, e);
    }
}

proof fn lemma_kept<A, B>(s: Seq<A>, f: spec_fn(A) -> Option<B>, i: int, e: B)
    requires
        0 <= i < s.len(),
        f(s[i]) == Some(e),
    ensures
        s.filter_map(f).contains(e),
    decreases s.len(),
{
    let front = s.drop_last();
    if i == s.len() - 1 {
        assert(s.filter_map(f) == front.filter_map(f) + seq![e]);
        assert(s.filter_map(f)[front.filter_map(f).len() as int] == e);
    } else {
        lemma_kept(front, f, i, e);
        let k = choose|k: int| 0 <= k < front.filter_map(f).len() && front.filter_map(f)[k] == e;
        assert(s.filter_map(f)[k] == e);
    }
}

/// Caches are listed by size, the largest first, and none is lost or added.
pub proof fn law_caches_are_listed_largest_first(c: Seq<CacheEntry>, r: Seq<CacheEntry>)
    requires
        order::stably_sorted(c, r),
    ensures
        r.to_multiset() == c.to_multiset(),
        forall|i: int, j: int|
            0 <= i < j < r.len() ==> (#[trigger] r[i]).size_bytes >= (#[trigger] r[j]).size_bytes,
{
    assert forall|i: int, j: int| 0 <= i < j < r.len() implies (#[trigger] r[i]).size_bytes >= (
    #[trigger] r[j]).size_bytes by {
        assert(order::Ranked::leads(r[i], r[j]));
    }
}

/// A regular file adds its length to the size of a cache, everything else adds nothing.
pub proof fn law_only_files_count(seen: Seq<Sighting>, s: Sighting)
    ensures
        lists::sum(counted_all(Seq::empty())) == 0,
        s.is_file ==> lists::sum(counted_all(seen.push(s))) == lists::sum(counted_all(seen))
            + s.len,
        !s.is_file ==> lists::sum(counted_all(seen.push(s))) == lists::sum(counted_all(seen)),
{
    assert(counted_all(seen.push(s)).drop_last() =~= counted_all(seen));
}

/// A cache was last changed when the latest of its entries was, whatever the entries are: no
/// entry was changed later, and one was changed then, unless none was changed since 1970.
pub proof fn law_the_latest_change_counts(seen: Seq<Sighting>)
    ensures
        latest(seen) >= 0,
        forall|i: int|
            0 <= i < seen.len() && (#[trigger] seen[i]).modified is Some ==> latest(seen)
                >= seen[i].modified->0.secs * 1_000_000_000 + seen[i].modified->0.nanos,
        latest(seen) == 0 || exists|i: int|
            0 <= i < seen.len() && (#[trigger] seen[i]).modified is Some && latest(seen)
                == seen[i].modified->0.secs * 1_000_000_000 + seen[i].modified->0.nanos,
    decreases seen.len(),
{
    if seen.len() > 0 {
        let front = seen.drop_last();
        law_the_latest_change_counts(front);
        assert forall|i: int|
            0 <= i < seen.len() && (#[trigger] seen[i]).modified is Some implies latest(seen)
            >= seen[i].modified->0.secs * 1_000_000_000 + seen[i].modified->0.nanos by {
            if i < front.len() {
                assert(front[i] == seen[i]);
                assert(latest(front) >= seen[i].modified->0.total());
            }
        }
        if latest(seen) != 0 {
            if latest(seen) == latest(front) {
                let i = choose|i: int|
                    0 <= i < front.len() && (#[trigger] front[i]).modified is Some && latest(front)
                        == front[i].modified->0.secs * 1_000_000_000 + front[i].modified->0.nanos;
                assert(seen[i] == front[i]);
            } else {
                assert(seen[seen.len() - 1].modified is Some);
            }
        }
    }
}

/// One more cache adds its size to what could be freed, and to what was freed exactly if its
/// deletion worked; a deletion is noted on the cache that it was of, and changes nothing else
/// of it.
pub proof fn law_cleaning_is_told_cache_by_cache(
    entries: Seq<CacheEntryView>,
    removed: Seq<bool>,
    e: CacheEntryView,
    gone: bool,
)
    requires
        entries.len() == removed.len(),
    ensures
        ({
            let before = after_removal(entries, removed);
            let after = after_removal(entries.push(e), removed.push(gone));
            &&& lists::sum(sizes(entries.push(e))) == lists::sum(sizes(entries)) + e.size_bytes
            &&& lists::sum(freed(after)) == lists::sum(freed(before)) + (if gone {
                e.size_bytes as int
            } else {
                0
            })
            &&& after.len() == before.len() + 1
            &&& after.drop_last() == before
            &&& after.last().removed == gone
            &&& after.last().name == e.name
            &&& after.last().path == e.path
            &&& after.last().size_bytes == e.size_bytes
            &&& after.last().idle_days == e.idle_days
            &&& after.last().regenerates == e.regenerates
        }),
{
    let before = after_removal(entries, removed);
    let after = after_removal(entries.push(e), removed.push(gone));
    assert(after.drop_last() =~= before);
    assert(sizes(entries.push(e)).drop_last() =~= sizes(entries));
    assert(freed(after).drop_last() =~= freed(before));
}

/// Each known cache is looked for at its own place, below the home directory.
pub proof fn law_caches_are_looked_for_below_home(home: Seq<u8>, i: int)
    requires
        0 <= i < known_caches().len(),
        home.len() > 0,
    ensures
        places_under(home).len() == known_caches().len(),
        home.is_prefix_of(places_under(home)[i]),
        encode_utf8(known_caches()[i].1).is_suffix_of(places_under(home)[i]),
        places_under(home)[i].len() <= home.len() + 1 + encode_utf8(known_caches()[i].1).len(),
{
    let rel = encode_utf8(known_caches()[i].1);
    lemma_places(i);
    text::law_joined_paths_lie_below(home, rel);
    if rel.len() > 0 && rel[0] == 0x2f {
        assert(false) by {
            encode_utf8_first_scalar(known_caches()[i].1);
            let x = rel[0];
            assert(x == 0x2f ==> (x & 0x80 == 0)) by (bit_vector);
            assert(x == 0x2f ==> (x & 0x7f) == 0x2f) by (bit_vector);
            assert(decode_first_scalar(rel) == 0x2f);
            char_u32_cast(known_caches()[i].1[0], 0x2f);
        }
    }
}

/// Nothing is taken for a cache but these places below a home directory, under these names, and
/// with these words on how the data comes back;
/// there are as many known caches as that.
pub proof fn law_the_known_caches_are_these(i: int)
    requires
        0 <= i < known_caches().len(),
    ensures
        known_caches().len() == 23,
        ({
            let k = known_caches()[i];
            ||| k.0 == "npm"@ && k.1 == ".npm/_cacache"@ && k.2
                == "re-fetched by npm"@
            ||| k.0 == "bun"@ && k.1 == ".bun/install/cache"@ && k.2
                == "re-fetched by bun"@
            ||| k.0 == "uv"@ && k.1 == ".cache/uv"@ && k.2
                == "re-fetched by uv"@
            ||| k.0 == "uv"@ && k.1 == "Library/Caches/uv"@ && k.2
                == "re-fetched by uv"@
            ||| k.0 == "pip"@ && k.1 == ".cache/pip"@ && k.2
                == "re-fetched by pip"@
            ||| k.0 == "pip"@ && k.1 == "Library/Caches/pip"@ && k.2
                == "re-fetched by pip"@
            ||| k.0 == "yarn"@ && k.1 == ".cache/yarn"@ && k.2
                == "re-fetched by yarn"@
            ||| k.0 == "yarn"@ && k.1 == "Library/Caches/Yarn"@ && k.2
                == "re-fetched by yarn"@
            ||| k.0 == "pnpm"@ && k.1 == ".pnpm-store"@ && k.2
                == "re-fetched by pnpm"@
            ||| k.0 == "huggingface"@ && k.1 == ".cache/huggingface"@ && k.2
                == "models re-download on use"@
            ||| k.0 == "gradle"@ && k.1 == ".gradle/caches"@ && k.2
                == "re-fetched by gradle"@
            ||| k.0 == "cargo (registry cache)"@ && k.1 == ".cargo/registry/cache"@ && k.2
                == "re-fetched by cargo"@
            ||| k.0 == "cargo (registry src)"@ && k.1 == ".cargo/registry/src"@ && k.2
                == "re-extracted by cargo"@
            ||| k.0 == "go (build)"@ && k.1 == "Library/Caches/go-build"@ && k.2
                == "rebuilt by go"@
            ||| k.0 == "go (mod download)"@ && k.1 == "go/pkg/mod/cache/download"@ && k.2
                == "re-fetched by go"@
            ||| k.0 == "deno"@ && k.1 == "Library/Caches/deno"@ && k.2
                == "re-fetched by deno"@
            ||| k.0 == "pre-commit"@ && k.1 == ".cache/pre-commit"@ && k.2
                == "re-created by pre-commit"@
            ||| k.0 == "zig"@ && k.1 == ".cache/zig"@ && k.2
                == "rebuilt by zig"@
            ||| k.0 == "playwright"@ && k.1 == "Library/Caches/ms-playwright"@ && k.2
                == "re-downloaded"@
            ||| k.0 == "puppeteer"@ && k.1 == ".cache/puppeteer"@ && k.2
                == "re-downloaded"@
            ||| k.0 == "electron"@ && k.1 == ".cache/electron"@ && k.2
                == "re-downloaded"@
            ||| k.0 == "cocoapods"@ && k.1 == "Library/Caches/CocoaPods"@ && k.2
                == "re-fetched by pod"@
            ||| k.0 == "Xcode DerivedData"@ && k.1 == "Library/Developer/Xcode/DerivedData"@ && k.2
                == "rebuilt by Xcode"@
        }),
{
}

} // verus!

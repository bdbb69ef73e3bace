//! Which files `stow auto` may offload: large enough, not used for long enough, and
//! nothing risky (hidden files, application bundles, excluded paths, files that are
//! already offloaded).
//!
//! The time of last use is the one that Spotlight reports. Only where Spotlight has
//! none, the later of a file's access and modification times stands in for it.

use vstd::prelude::*;

use crate::cache;
use crate::config;
use crate::config::{Policy, PolicyView};
use crate::dates;
use crate::order;
use crate::text;
use crate::text::Separator;

verus! {

/// A file that may be offloaded.
#[derive(Debug)]
pub struct Candidate {
    pub path: String,
    pub size: i64,
    pub days_unused: i64,
    /// `spotlight` if the time of last use came from Spotlight, else `filesystem`.
    pub signal: String,
    /// How often the file was opened, where Spotlight knows.
    pub use_count: Option<i64>,
}

/// The content of a `Candidate`.
pub struct CandidateView {
    pub path: Seq<char>,
    pub size: i64,
    pub days_unused: i64,
    pub signal: Seq<char>,
    pub use_count: Option<i64>,
}

impl View for Candidate {
    type V = CandidateView;

    open spec fn view(&self) -> CandidateView {
        CandidateView {
            path: self.path@,
            size: self.size,
            days_unused: self.days_unused,
            signal: self.signal@,
            use_count: self.use_count,
        }
    }
}

/// Candidates are listed largest first.
impl order::Ranked for Candidate {
    open spec fn leads(self, other: Self) -> bool {
        self.size >= other.size
    }

    proof fn leads_total(a: Self, b: Self) {
    }

    proof fn leads_transitive(a: Self, b: Self, c: Self) {
    }

    fn may_lead(&self, other: &Self) -> (r: bool) {
        self.size >= other.size
    }
}

// ---- directories ----------------------------------------------------------------

/// Names of directories that are never offloaded from: credentials and keys, version
/// control, and the trash.
pub open spec fn sensitive_names() -> Seq<Seq<char>> {
    seq![
        ".ssh"@,
        ".aws"@,
        ".gnupg"@,
        ".password-store"@,
        ".kube"@,
        ".docker"@,
        ".git"@,
        ".Trash"@,
        ".Trashes"@,
    ]
}

/// Whether a directory of this name is never offloaded from.
pub fn is_sensitive_dir(n: &str) -> (r: bool)
    ensures
        r == sensitive_names().contains(n@),
{
    let r = text::same(n, ".ssh") || text::same(n, ".aws") || text::same(n, ".gnupg") || text::same(
        n,
        ".password-store",
    ) || text::same(n, ".kube") || text::same(n, ".docker") || text::same(n, ".git") || text::same(
        n,
        ".Trash",
    ) || text::same(n, ".Trashes");
    proof {
        let s = sensitive_names();
        assert(s[0] == ".ssh"@ && s[1] == ".aws"@ && s[2] == ".gnupg"@);
        assert(s[3] == ".password-store"@ && s[4] == ".kube"@ && s[5] == ".docker"@);
        assert(s[6] == ".git"@ && s[7] == ".Trash"@ && s[8] == ".Trashes"@);
    }
    r
}

/// Endings of directory names that are opaque packages.
pub open spec fn package_endings() -> Seq<Seq<char>> {
    seq![
        ".app"@,
        ".photoslibrary"@,
        ".imovielibrary"@,
        ".tvlibrary"@,
        ".musiclibrary"@,
        ".bundle"@,
        ".framework"@,
        ".aplibrary"@,
    ]
}

/// Whether a directory of this name is really a package, not a folder.
pub open spec fn is_package(n: Seq<char>) -> bool {
    exists|i: int|
        0 <= i < package_endings().len() && (#[trigger] package_endings()[i]).is_suffix_of(n)
}

/// Whether a directory of this name is really a package, not a folder.
pub fn is_package_dir(n: &str) -> (r: bool)
    ensures
        r == is_package(n@),
{
    let r = text::ends_with(n, ".app") || text::ends_with(n, ".photoslibrary") || text::ends_with(
        n,
        ".imovielibrary",
    ) || text::ends_with(n, ".tvlibrary") || text::ends_with(n, ".musiclibrary") || text::ends_with(
        n,
        ".bundle",
    ) || text::ends_with(n, ".framework") || text::ends_with(n, ".aplibrary");
    proof {
        let s = package_endings();
        assert(s[0] == ".app"@ && s[1] == ".photoslibrary"@ && s[2] == ".imovielibrary"@);
        assert(s[3] == ".tvlibrary"@ && s[4] == ".musiclibrary"@ && s[5] == ".bundle"@);
        assert(s[6] == ".framework"@ && s[7] == ".aplibrary"@);
    }
    r
}

/// Whether one of `excludes` occurs in `path`.
pub open spec fn is_excluded(path: Seq<char>, excludes: Seq<Seq<char>>) -> bool {
    exists|i: int| 0 <= i < excludes.len() && text::occurs(path, #[trigger] excludes[i])
}

fn matches_any(path: &str, excludes: &Vec<String>) -> (r: bool)
    ensures
        r == is_excluded(path@, text::texts(excludes@)),
{
    let mut i: usize = 0;
    while i < excludes.len()
        invariant
            i <= excludes.len(),
            forall|j: int|
                0 <= j < i ==> !text::occurs(path@, #[trigger] text::texts(excludes@)[j]),
        decreases excludes.len() - i,
    {
        assert(text::texts(excludes@)[i as int] == excludes@[i as int]@);
        if text::contains(path, excludes[i].as_str()) {
            return true;
        }
        i += 1;
    }
    false
}

/// Whether a directory walk goes into an entry.
pub open spec fn descends(
    is_dir: bool,
    name: Seq<char>,
    path: Seq<char>,
    excludes: Seq<Seq<char>>,
    include_hidden: bool,
) -> bool {
    is_dir ==> {
        &&& !sensitive_names().contains(name)
        &&& name.len() > 0 && name[0] == '.' ==> include_hidden
        &&& !is_package(name)
        &&& !is_excluded(path, excludes)
    }
}

fn is_dotted(n: &str) -> (r: bool)
    ensures
        r == (n@.len() > 0 && n@[0] == '.'),
{
    let v = text::chars_of(n);
    v.len() > 0 && v[0] == '.'
}

/// Tells a directory walk whether to go into an entry: not into hidden directories
/// unless asked to, packages and excluded paths, and never into sensitive ones.
pub fn should_descend(
    is_dir: bool,
    name: &str,
    path: &str,
    excludes: &Vec<String>,
    include_hidden: bool,
) -> (r: bool)
    ensures
        r == descends(is_dir, name@, path@, text::texts(excludes@), include_hidden),
{
    if !is_dir {
        return true;
    }
    if is_sensitive_dir(name) {
        return false;
    }
    if is_dotted(name) && !include_hidden {
        return false;
    }
    if is_package_dir(name) {
        return false;
    }
    !matches_any(path, excludes)
}

/// A sensitive directory is never walked, whatever the policy says.
pub proof fn law_sensitive_directories_are_never_walked(
    name: Seq<char>,
    path: Seq<char>,
    excludes: Seq<Seq<char>>,
    include_hidden: bool,
)
    requires
        sensitive_names().contains(name),
    ensures
        !descends(true, name, path, excludes, include_hidden),
{
}

/// Whether a directory of this name is kept out of offloading, whatever the policy says: a
/// sensitive one, or a package.
pub open spec fn is_guarded(name: Seq<char>) -> bool {
    sensitive_names().contains(name) || is_package(name)
}

/// Whether a path lies in a guarded directory, at any depth.
pub open spec fn in_guarded_dir(path: Seq<char>) -> bool {
    let parts = text::split_at(path, Separator::Is('/'));
    exists|i: int| 0 <= i < parts.len() - 1 && is_guarded(#[trigger] parts[i])
}

/// Whether a path lies in a guarded directory, at any depth.
pub fn lies_in_guarded_dir(path: &str) -> (r: bool)
    ensures
        r == in_guarded_dir(path@),
{
    let parts = text::split(path, Separator::Is('/'));
    let ghost views = text::texts(parts@);
    let mut i: usize = 0;
    while parts.len() - i > 1
        invariant
            i <= parts.len(),
            views == text::texts(parts@),
            views.len() == parts.len(),
            views == text::split_at(path@, Separator::Is('/')),
            forall|j: int| 0 <= j < i ==> !is_guarded(#[trigger] views[j]),
        decreases parts.len() - i,
    {
        assert(views[i as int] == parts@[i as int]@);
        if is_sensitive_dir(parts[i].as_str()) || is_package_dir(parts[i].as_str()) {
            return true;
        }
        i += 1;
    }
    false
}

/// Whether a path has a component that starts with a dot. A single dot counts only
/// where the path begins with it; elsewhere it names nothing.
pub open spec fn has_hidden_part(p: Seq<char>) -> bool {
    let parts = text::split_at(p, Separator::Is('/'));
    exists|i: int|
        0 <= i < parts.len() && (#[trigger] parts[i]).len() > 0 && parts[i][0] == '.' && (
        parts[i].len() > 1 || i == 0)
}

/// Whether a path has a component that starts with a dot.
pub fn path_has_hidden_component(p: &str) -> (r: bool)
    ensures
        r == has_hidden_part(p@),
{
    let parts = text::split(p, Separator::Is('/'));
    let ghost views = text::texts(parts@);
    let mut i: usize = 0;
    while i < parts.len()
        invariant
            i <= parts.len(),
            views == text::texts(parts@),
            views == text::split_at(p@, Separator::Is('/')),
            forall|j: int|
                0 <= j < i ==> !((#[trigger] views[j]).len() > 0 && views[j][0] == '.' && (
                views[j].len() > 1 || j == 0)),
        decreases parts.len() - i,
    {
        assert(views[i as int] == parts@[i as int]@);
        let c = text::chars_of(parts[i].as_str());
        if c.len() > 0 && c[0] == '.' && (c.len() > 1 || i == 0) {
            return true;
        }
        i += 1;
    }
    false
}

// ---- the time of last use -------------------------------------------------------

/// The later of a file's access and modification times: if either is recent, the file
/// counts as used recently.
pub fn fs_last_used(atime: i64, mtime: i64) -> (r: i64)
    ensures
        r == later(atime, mtime),
{
    if atime >= mtime {
        atime
    } else {
        mtime
    }
}

pub open spec fn later(a: i64, b: i64) -> i64 {
    if a >= b {
        a
    } else {
        b
    }
}

/// What Spotlight printed, cut at its separators.
pub open spec fn spotlight_parts(raw: Seq<char>) -> Seq<Seq<char>> {
    text::split_at(raw, Separator::Is('\0'))
}

/// The use count that Spotlight printed: the second value, if it is a number.
pub open spec fn spotlight_count(raw: Seq<char>) -> Option<int> {
    let parts = spotlight_parts(raw);
    if parts.len() < 2 {
        None
    } else {
        text::number(text::trimmed(parts[1], Separator::Space))
    }
}

/// Reads what Spotlight printed for the date of last use and the use count, with a NUL
/// between the two. Either may be missing.
pub fn spotlight_values(raw: &str) -> (r: (Option<i64>, Option<i64>))
    requires
        dates::date_computable(spotlight_parts(raw@)[0]),
    ensures
        match r.0 {
            Some(t) => {
                &&& dates::stamp_of(spotlight_parts(raw@)[0]) is Some
                &&& t == dates::stamp_of(spotlight_parts(raw@)[0])->0.epoch()
            },
            None => dates::stamp_of(spotlight_parts(raw@)[0]) is None,
        },
        match r.1 {
            Some(n) => spotlight_count(raw@) == Some(n as int),
            None => spotlight_count(raw@) is None,
        },
{
    let fields = text::split(raw, Separator::Is('\0'));
    proof {
        text::lemma_split_nonempty(raw@, Separator::Is('\0'));
        assert(text::texts(fields@)[0] == fields@[0]@);
    }
    let last_used = dates::parse_mdls_date(fields[0].as_str());
    let use_count = if fields.len() < 2 {
        None
    } else {
        assert(text::texts(fields@)[1] == fields@[1]@);
        text::parse_i64(&text::trim_chars(&text::chars_of(fields[1].as_str()), Separator::Space))
    };
    (last_used, use_count)
}

/// Tells whether `spotlight_values` can be asked about an output.
pub fn check_spotlight(raw: &str) -> (r: bool)
    ensures
        r == dates::date_computable(spotlight_parts(raw@)[0]),
{
    let fields = text::split(raw, Separator::Is('\0'));
    proof {
        text::lemma_split_nonempty(raw@, Separator::Is('\0'));
        assert(text::texts(fields@)[0] == fields@[0]@);
    }
    dates::check_mdls_date(fields[0].as_str())
}

// ---- scanning -------------------------------------------------------------------

/// An entry that a walk over the file system came across.
#[derive(Debug)]
pub struct Entry {
    pub is_file: bool,
    pub path: String,
    pub len: u64,
    pub atime: i64,
    pub mtime: i64,
    /// Whether it is a placeholder.
    pub placeholder: bool,
    /// The time of last use that Spotlight reports, if any.
    pub last_used: Option<i64>,
    /// How often it was opened, if Spotlight reports that.
    pub use_count: Option<i64>,
}

/// The content of an `Entry`.
pub struct EntryView {
    pub is_file: bool,
    pub path: Seq<char>,
    pub len: u64,
    pub atime: i64,
    pub mtime: i64,
    pub placeholder: bool,
    pub last_used: Option<i64>,
    pub use_count: Option<i64>,
}

impl View for Entry {
    type V = EntryView;

    open spec fn view(&self) -> EntryView {
        EntryView {
            is_file: self.is_file,
            path: self.path@,
            len: self.len,
            atime: self.atime,
            mtime: self.mtime,
            placeholder: self.placeholder,
            last_used: self.last_used,
            use_count: self.use_count,
        }
    }
}

/// The content of a list of entries.
pub open spec fn entries(v: Seq<Entry>) -> Seq<EntryView> {
    v.map_values(|e: Entry| e@)
}

impl EntryView {
    /// The time of last use: the one that Spotlight reports, or else the later of the
    /// access and modification times.
    pub open spec fn used(self) -> i64 {
        match self.last_used {
            Some(t) => t,
            None => later(self.atime, self.mtime),
        }
    }
}

impl PolicyView {
    /// Whether the policy lets a path be offloaded. What lies in a guarded directory never
    /// is, wherever a walk began.
    pub open spec fn admits(self, path: Seq<char>) -> bool {
        &&& !in_guarded_dir(path)
        &&& has_hidden_part(path) ==> self.include_hidden
        &&& !is_excluded(path, self.excludes)
    }

    /// Whether an entry is a file that the policy lets be offloaded, large enough, and
    /// not offloaded already.
    pub open spec fn considers(self, e: EntryView) -> bool {
        &&& e.is_file
        &&& self.admits(e.path)
        &&& e.len >= self.min_size_bytes
        &&& !e.placeholder
    }

    /// The age in seconds from which on a file counts as unused.
    pub open spec fn min_age_secs(self) -> int {
        (self.min_age_days as i64) * 86_400
    }

    /// What becomes of an entry: a candidate, if it is one to consider and was not used
    /// for long enough.
    pub open spec fn verdict(self, now: i64, e: EntryView) -> Option<CandidateView> {
        let age = now - e.used();
        if !self.considers(e) || age < self.min_age_secs() {
            None
        } else {
            Some(
                CandidateView {
                    path: e.path,
                    size: e.len as i64,
                    days_unused: dates::quotient(age, 86_400) as i64,
                    signal: if e.last_used is Some {
                        "spotlight"@
                    } else {
                        "filesystem"@
                    },
                    use_count: e.use_count,
                },
            )
        }
    }
}

/// The candidates among some entries, in the order in which they were come across.
pub open spec fn selected(pol: PolicyView, now: i64, found: Seq<EntryView>) -> Seq<CandidateView> {
    found.filter_map(|e: EntryView| pol.verdict(now, e))
}

/// Whether the arithmetic of a scan stays in range: the minimum age in seconds, and the
/// age of every file to consider.
pub open spec fn ages_fit(pol: PolicyView, now: i64, found: Seq<EntryView>) -> bool {
    &&& dates::fits(pol.min_age_secs())
    &&& forall|i: int|
        0 <= i < found.len() && pol.considers(#[trigger] found[i]) ==> dates::fits(
            now - found[i].used(),
        )
}

/// What a list of candidates holds.
pub open spec fn candidates(v: Seq<Candidate>) -> Seq<CandidateView> {
    v.map_values(|c: Candidate| c@)
}

/// Whether a walk over the file system should look closer at an entry: it is a file,
/// and the policy lets its path be offloaded.
pub fn admits(pol: &Policy, is_file: bool, path: &str) -> (r: bool)
    ensures
        r == (is_file && pol@.admits(path@)),
{
    if !is_file {
        return false;
    }
    if lies_in_guarded_dir(path) {
        return false;
    }
    if !pol.include_hidden && path_has_hidden_component(path) {
        return false;
    }
    !matches_any(path, &pol.excludes)
}

/// Whether a file is large enough to be worth offloading.
pub fn is_large_enough(pol: &Policy, len: u64) -> (r: bool)
    ensures
        r == (len >= pol.min_size_bytes),
{
    len >= pol.min_size_bytes
}

fn considers(pol: &Policy, e: &Entry) -> (r: bool)
    ensures
        r == pol@.considers(e@),
{
    admits(pol, e.is_file, e.path.as_str()) && is_large_enough(pol, e.len) && !e.placeholder
}

fn used(e: &Entry) -> (r: i64)
    ensures
        r == e@.used(),
{
    match e.last_used {
        Some(t) => t,
        None => fs_last_used(e.atime, e.mtime),
    }
}

/// Decides on one entry.
fn judge(pol: &Policy, min_age_secs: i64, now: i64, e: &Entry) -> (r: Option<Candidate>)
    requires
        min_age_secs == pol@.min_age_secs(),
        pol@.considers(e@) ==> dates::fits(now - e@.used()),
    ensures
        match r {
            Some(c) => pol@.verdict(now, e@) == Some(c@),
            None => pol@.verdict(now, e@) is None,
        },
{
    if !considers(pol, e) {
        return None;
    }
    let age: i64 = now - used(e);
    if age < min_age_secs {
        return None;
    }
    let signal = match e.last_used {
        Some(_) => "spotlight",
        None => "filesystem",
    };
    #[verifier::truncate]
    let size: i64 = e.len as i64;
    Some(
        Candidate {
            path: e.path.clone(),
            size,
            days_unused: age / 86_400,
            signal: signal.to_owned(),
            use_count: e.use_count,
        },
    )
}

/// Selects the candidates among the entries that a walk over the roots of a policy came
/// across, largest first; candidates of the same size stay in the order in which they
/// were come across.
pub fn scan(pol: &Policy, now: i64, found: &Vec<Entry>) -> (r: Vec<Candidate>)
    requires
        ages_fit(pol@, now, entries(found@)),
    ensures
        exists|c: Seq<Candidate>| #[trigger]
            order::stably_sorted(c, r@) && candidates(c) == selected(pol@, now, entries(found@)),
{
    let ghost all = entries(found@);
    let ghost f = |e: EntryView| pol@.verdict(now, e);
    #[verifier::truncate]
    let min_age_days: i64 = pol.min_age_days as i64;
    let min_age_secs: i64 = min_age_days * 86_400;
    let mut out: Vec<Candidate> = Vec::new();
    let mut i: usize = 0;
    assert(all.take(0).filter_map(f) =~= Seq::<CandidateView>::empty());
    assert(candidates(out@) =~= Seq::<CandidateView>::empty());
    while i < found.len()
        invariant
            i <= found.len(),
            all == entries(found@),
            ages_fit(pol@, now, all),
            min_age_secs == pol@.min_age_secs(),
            f == (|e: EntryView| pol@.verdict(now, e)),
            candidates(out@) == all.take(i as int).filter_map(f),
        decreases found.len() - i,
    {
        let ghost old_out = out@;
        proof {
            assert(all.take(i + 1).drop_last() =~= all.take(i as int));
            assert(all[i as int] == found@[i as int]@);
            assert(pol@.considers(all[i as int]) ==> dates::fits(now - all[i as int].used()));
        }
        match judge(pol, min_age_secs, now, &found[i]) {
            Some(c) => {
                let ghost cv = c@;
                out.push(c);
                assert(candidates(out@) =~= candidates(old_out) + seq![cv]);
            },
            None => {},
        }
        i += 1;
    }
    assert(all.take(all.len() as int) =~= all);
    let ghost unsorted = out@;
    let r = order::sort(out);
    assert(order::stably_sorted(unsorted, r@));
    r
}

/// Tells whether the arithmetic of `scan` stays in range.
pub fn check_scan(pol: &Policy, now: i64, found: &Vec<Entry>) -> (r: bool)
    ensures
        r == ages_fit(pol@, now, entries(found@)),
{
    #[verifier::truncate]
    let min_age_days: i64 = pol.min_age_days as i64;
    if min_age_days.checked_mul(86_400).is_none() {
        return false;
    }
    let ghost all = entries(found@);
    let mut i: usize = 0;
    while i < found.len()
        invariant
            i <= found.len(),
            all == entries(found@),
            forall|j: int|
                0 <= j < i && pol@.considers(#[trigger] all[j]) ==> dates::fits(
                    now - all[j].used(),
                ),
        decreases found.len() - i,
    {
        assert(all[i as int] == found@[i as int]@);
        if considers(pol, &found[i]) && now.checked_sub(used(&found[i])).is_none() {
            assert(!dates::fits(now - all[i as int].used()));
            return false;
        }
        i += 1;
    }
    true
}

/// A candidate is always a file that was come across, that the policy lets be offloaded,
/// of at least the minimum size, not offloaded already, and not used for at least the
/// minimum age.
pub proof fn law_candidates_keep_the_policy(
    pol: PolicyView,
    now: i64,
    found: Seq<EntryView>,
    i: int,
)
    requires
        0 <= i < selected(pol, now, found).len(),
    ensures
        exists|k: int|
            0 <= k < found.len() && pol.verdict(now, #[trigger] found[k]) == Some(
                selected(pol, now, found)[i],
            ) && pol.considers(found[k]) && now - found[k].used() >= pol.min_age_secs(),
{
    let f = |e: EntryView| pol.verdict(now, e);
    let c = selected(pol, now, found)[i];
    assert(found.filter_map(f).contains(c));
    found.lemma_filter_map_contains(f, c);
    let t = choose|t: EntryView| #[trigger] found.contains(t) && f(t) == Some(c);
    let k = choose|k: int| 0 <= k < found.len() && found[k] == t;
    assert(pol.verdict(now, found[k]) == Some(c));
}

/// No candidate lies in a directory of credentials or keys, under version control, in the
/// trash or in a package, whatever the policy says and wherever the walk began.
pub proof fn law_candidates_are_outside_guarded_directories(
    pol: PolicyView,
    now: i64,
    found: Seq<EntryView>,
    i: int,
)
    requires
        0 <= i < selected(pol, now, found).len(),
    ensures
        !in_guarded_dir(selected(pol, now, found)[i].path),
{
    law_candidates_keep_the_policy(pol, now, found, i);
}

/// Nothing in a known cache is offloaded by default, whether hidden directories are scanned
/// or not: `rest` is the place of a file within cache `i` below a home directory.
pub proof fn law_known_caches_are_not_offloaded(
    pol: PolicyView,
    home: Seq<char>,
    i: int,
    rest: Seq<char>,
)
    requires
        pol.excludes == config::standard_excludes(),
        home.len() > 0,
        0 <= i < cache::known_caches().len(),
    ensures
        !pol.admits(text::joined(home, cache::known_caches()[i].1) + "/"@ + rest),
{
    let rel = cache::known_caches()[i].1;
    let path = text::joined(home, rel) + "/"@ + rest;
    let mark = "/"@ + rel + "/"@;
    reveal_strlit("/");
    cache::lemma_places(i);
    let k = config::areas().len() + i;
    assert(config::cache_marks()[i] == mark);
    assert(pol.excludes[k] == mark);
    let at = if home.last() == '/' {
        home.len() - 1
    } else {
        home.len() as int
    };
    assert(path.subrange(at, at + mark.len()) =~= mark);
    assert(text::occurs_at(path, mark, at));
    assert(text::occurs(path, pol.excludes[k]));
}

/// Every file that the policy lets be offloaded, of at least the minimum size, not
/// offloaded already and not used for at least the minimum age, is a candidate.
pub proof fn law_every_stale_file_is_a_candidate(
    pol: PolicyView,
    now: i64,
    found: Seq<EntryView>,
    k: int,
)
    requires
        0 <= k < found.len(),
        pol.considers(found[k]),
        now - found[k].used() >= pol.min_age_secs(),
    ensures
        selected(pol, now, found).contains(pol.verdict(now, found[k])->0),
    decreases found.len(),
{
    let c = pol.verdict(now, found[k])->0;
    let front = selected(pol, now, found.drop_last());
    let all = selected(pol, now, found);
    if k == found.len() - 1 {
        assert(all == front + seq![c]);
        assert(all[front.len() as int] == c);
    } else {
        law_every_stale_file_is_a_candidate(pol, now, found.drop_last(), k);
        let j = choose|j: int| 0 <= j < front.len() && front[j] == c;
        assert(all[j] == c);
    }
}

/// A file that was just brought back, with an access time of now, is not a candidate
/// again at once, where the policy asks for an age of a day or more. Only where Spotlight
/// reports a use that is as old as that, it counts in place of the access time.
pub proof fn law_fresh_files_are_not_candidates(pol: PolicyView, now: i64, e: EntryView)
    requires
        1 <= pol.min_age_days <= i64::MAX,
        e.atime == now,
        e.last_used matches Some(t) ==> now - t < pol.min_age_secs(),
    ensures
        pol.verdict(now, e) is None,
{
}

/// Where Spotlight reports a use, that date alone tells a file's age: a file that the policy
/// lets be offloaded, large enough and no placeholder, is a candidate exactly if the date is
/// at least as many days ago as the policy asks for, and is reported with the whole days
/// since then. When it was accessed or modified does not matter.
pub proof fn law_spotlight_tells_the_age(pol: PolicyView, now: i64, e: EntryView, t: i64)
    requires
        e.last_used == Some(t),
        pol.min_age_days <= i64::MAX,
    ensures
        e.is_file && pol.admits(e.path) && e.len >= pol.min_size_bytes && !e.placeholder && now - t
            >= pol.min_age_days * 86_400 ==> {
            &&& pol.verdict(now, e) is Some
            &&& pol.verdict(now, e)->0.path == e.path
            &&& pol.verdict(now, e)->0.use_count == e.use_count
            &&& pol.verdict(now, e)->0.signal == "spotlight"@
            &&& e.len <= i64::MAX ==> pol.verdict(now, e)->0.size == e.len
            &&& now - t <= i64::MAX ==> pol.verdict(now, e)->0.days_unused == (now - t) / 86_400
        },
        !e.is_file || !pol.admits(e.path) || e.len < pol.min_size_bytes || e.placeholder || now - t
            < pol.min_age_days * 86_400 ==> pol.verdict(now, e) is None,
{
}

/// Two files that differ only in their access and modification times fare alike where
/// Spotlight reports a use of them.
pub proof fn law_file_times_do_not_matter_to_spotlight(
    pol: PolicyView,
    now: i64,
    e: EntryView,
    atime: i64,
    mtime: i64,
)
    requires
        e.last_used is Some,
    ensures
        pol.verdict(now, EntryView { atime, mtime, ..e }) == pol.verdict(now, e),
{
}

/// Where Spotlight reports no use, a file is as old as the more recent of its access and
/// modification times: it is a candidate exactly if both are at least as many days ago as
/// the policy asks for, and is reported with the whole days since the more recent one.
pub proof fn law_file_times_stand_in_for_spotlight(pol: PolicyView, now: i64, e: EntryView)
    requires
        e.last_used is None,
        pol.min_age_days <= i64::MAX,
    ensures
        e.is_file && pol.admits(e.path) && e.len >= pol.min_size_bytes && !e.placeholder && now
            - e.atime >= pol.min_age_days * 86_400 && now - e.mtime >= pol.min_age_days * 86_400
            ==> {
            &&& pol.verdict(now, e) is Some
            &&& pol.verdict(now, e)->0.path == e.path
            &&& pol.verdict(now, e)->0.use_count == e.use_count
            &&& pol.verdict(now, e)->0.signal == "filesystem"@
            &&& e.len <= i64::MAX ==> pol.verdict(now, e)->0.size == e.len
            &&& e.atime >= e.mtime && now - e.atime <= i64::MAX ==> pol.verdict(
                now,
                e,
            )->0.days_unused == (now - e.atime) / 86_400
            &&& e.mtime >= e.atime && now - e.mtime <= i64::MAX ==> pol.verdict(
                now,
                e,
            )->0.days_unused == (now - e.mtime) / 86_400
        },
        !e.is_file || !pol.admits(e.path) || e.len < pol.min_size_bytes || e.placeholder || now
            - e.atime < pol.min_age_days * 86_400 || now - e.mtime < pol.min_age_days * 86_400
            ==> pol.verdict(now, e) is None,
{
}

/// How often a file was opened is reported, but does not decide.
pub proof fn law_use_counts_do_not_decide(
    pol: PolicyView,
    now: i64,
    e: EntryView,
    use_count: Option<i64>,
)
    ensures
        pol.verdict(now, EntryView { use_count, ..e }) == match pol.verdict(now, e) {
            Some(c) => Some(CandidateView { use_count, ..c }),
            None => None,
        },
{
}

/// What is selected from a walk is what is selected from each part of it, in turn: no entry
/// changes what becomes of another.
pub proof fn law_entries_are_judged_one_by_one(
    pol: PolicyView,
    now: i64,
    found: Seq<EntryView>,
    e: EntryView,
)
    ensures
        selected(pol, now, Seq::empty()) == Seq::<CandidateView>::empty(),
        selected(pol, now, found.push(e)) == match pol.verdict(now, e) {
            Some(c) => selected(pol, now, found).push(c),
            None => selected(pol, now, found),
        },
{
    let f = |x: EntryView| pol.verdict(now, x);
    assert(found.push(e).drop_last() =~= found);
    assert(Seq::<EntryView>::empty().filter_map(f) =~= Seq::<CandidateView>::empty());
    match pol.verdict(now, e) {
        Some(c) => {
            assert(selected(pol, now, found.push(e)) =~= selected(pol, now, found).push(c));
        },
        None => {
            assert(selected(pol, now, found.push(e)) =~= selected(pol, now, found));
        },
    }
}

/// Candidates are listed by size, the largest first; those of one size keep the order in
/// which they were come across, and none is lost or added.
pub proof fn law_candidates_are_listed_largest_first(
    c: Seq<Candidate>,
    r: Seq<Candidate>,
    x: Candidate,
)
    requires
        order::stably_sorted(c, r),
    ensures
        r.to_multiset() == c.to_multiset(),
        forall|i: int, j: int|
            0 <= i < j < r.len() ==> (#[trigger] r[i]).size >= (#[trigger] r[j]).size,
        r.filter(|y: Candidate| y.size == x.size) == c.filter(|y: Candidate| y.size == x.size),
{
    assert forall|i: int, j: int| 0 <= i < j < r.len() implies (#[trigger] r[i]).size >= (
    #[trigger] r[j]).size by {
        assert(order::Ranked::leads(r[i], r[j]));
    }
    let same = |y: Candidate| y.size == x.size;
    assert(order::ties(x) =~= same);
}

// ---- which paths are let through -------------------------------------------------

/// A file whose path holds an excluded text anywhere is not offloaded, and a directory whose
/// path does is not walked.
pub proof fn law_excluded_texts_hold_back(
    pol: PolicyView,
    before: Seq<char>,
    k: int,
    after: Seq<char>,
    name: Seq<char>,
)
    requires
        0 <= k < pol.excludes.len(),
    ensures
        !pol.admits(before + pol.excludes[k] + after),
        !descends(
            true,
            name,
            before + pol.excludes[k] + after,
            pol.excludes,
            pol.include_hidden,
        ),
{
    let x = pol.excludes[k];
    let path = before + x + after;
    assert(path.subrange(before.len() as int, (before.len() + x.len()) as int) =~= x);
    assert(text::occurs_at(path, x, before.len() as int));
    assert(text::occurs(path, pol.excludes[k]));
}

/// A path in no guarded directory, with no part that starts with a dot, and with no excluded
/// text in it, is let through whatever else the policy says.
pub proof fn law_ordinary_paths_are_let_through(pol: PolicyView, path: Seq<char>)
    requires
        !in_guarded_dir(path),
        pol.include_hidden || !has_hidden_part(path),
        forall|k: int, before: Seq<char>, after: Seq<char>|
            0 <= k < pol.excludes.len() ==> path != #[trigger] (before + pol.excludes[k] + after),
    ensures
        pol.admits(path),
{
    if is_excluded(path, pol.excludes) {
        let k = choose|k: int|
            0 <= k < pol.excludes.len() && text::occurs(path, #[trigger] pol.excludes[k]);
        let x = pol.excludes[k];
        let i = choose|i: int| text::occurs_at(path, x, i);
        let before = path.take(i);
        let after = path.skip(i + x.len());
        assert(path =~= before + pol.excludes[k] + after) by {
            assert(path.subrange(i, i + x.len()) == x);
            assert forall|j: int| 0 <= j < x.len() implies path[i + j] == x[j] by {
                assert(path.subrange(i, i + x.len())[j] == x[j]);
            }
        }
    }
}

/// Whether a path lies in a guarded directory is told directory by directory, and never by
/// its last part: each directory on the way counts, at any depth.
pub proof fn law_guarded_directories_count_at_any_depth(
    before: Seq<char>,
    dir: Seq<char>,
    name: Seq<char>,
)
    requires
        !dir.contains('/'),
        !name.contains('/'),
    ensures
        !in_guarded_dir(name),
        in_guarded_dir(dir + "/"@ + name) == is_guarded(dir),
        in_guarded_dir(before + "/"@ + dir + "/"@ + name) == (in_guarded_dir(before + "/"@ + name)
            || is_guarded(dir)),
{
    reveal_strlit("/");
    let sep = Separator::Is('/');
    let slash = seq!['/'];
    assert("/"@ =~= slash);
    lemma_no_slash(dir);
    lemma_no_slash(name);
    text::law_unbroken_text_is_one_piece(dir, sep);
    text::law_unbroken_text_is_one_piece(name, sep);
    text::law_separators_part_the_pieces(dir, '/', name, sep);
    text::law_separators_part_the_pieces(before, '/', name, sep);
    text::law_separators_part_the_pieces(before, '/', dir + slash + name, sep);
    text::lemma_split_nonempty(before, sep);
    let b = text::split_at(before, sep);
    let deep = before + slash + dir + slash + name;
    assert(deep =~= before + slash + (dir + slash + name));
    let p = text::split_at(deep, sep);
    let q = text::split_at(before + slash + name, sep);
    assert(text::split_at(dir + slash + name, sep) =~= seq![dir, name]);
    assert(p =~= b + seq![dir, name]);
    assert(q =~= b + seq![name]);
    assert(text::split_at(dir + "/"@ + name, sep)[0] == dir);
    if in_guarded_dir(before + slash + name) {
        let i = choose|i: int| 0 <= i < q.len() - 1 && is_guarded(#[trigger] q[i]);
        assert(p[i] == q[i]);
        assert(in_guarded_dir(deep));
    }
    if is_guarded(dir) {
        assert(is_guarded(p[b.len() as int]));
        assert(in_guarded_dir(deep));
    }
    if in_guarded_dir(deep) && !is_guarded(dir) {
        let i = choose|i: int| 0 <= i < p.len() - 1 && is_guarded(#[trigger] p[i]);
        assert(i < b.len());
        assert(q[i] == p[i]);
    }
}

proof fn lemma_no_slash(s: Seq<char>)
    requires
        !s.contains('/'),
    ensures
        forall|i: int| 0 <= i < s.len() ==> !Separator::Is('/').accepts(#[trigger] s[i]),
{
    assert forall|i: int| 0 <= i < s.len() implies !Separator::Is('/').accepts(#[trigger] s[i]) by {
        assert(s.contains(s[i]));
    }
}

/// A path has a hidden part if it did before its last part was appended, or if that part
/// starts with a dot and is more than a dot.
pub proof fn law_hidden_parts_count_at_any_depth(before: Seq<char>, part: Seq<char>)
    requires
        !part.contains('/'),
    ensures
        has_hidden_part(part) == (part.len() > 0 && part[0] == '.'),
        has_hidden_part(before + "/"@ + part) == (has_hidden_part(before) || part.len() > 1
            && part[0] == '.'),
{
    reveal_strlit("/");
    let sep = Separator::Is('/');
    assert("/"@ =~= seq!['/']);
    lemma_no_slash(part);
    text::law_unbroken_text_is_one_piece(part, sep);
    text::law_separators_part_the_pieces(before, '/', part, sep);
    text::lemma_split_nonempty(before, sep);
    let b = text::split_at(before, sep);
    let p = text::split_at(before + "/"@ + part, sep);
    assert(p =~= b + seq![part]);
    assert(text::split_at(part, sep)[0] == part);
    if has_hidden_part(before) {
        let i = choose|i: int|
            0 <= i < b.len() && (#[trigger] b[i]).len() > 0 && b[i][0] == '.' && (b[i].len() > 1
                || i == 0);
        assert(p[i] == b[i]);
    }
    if part.len() > 1 && part[0] == '.' {
        assert(p[b.len() as int] == part);
    }
    if has_hidden_part(before + "/"@ + part) && !(part.len() > 1 && part[0] == '.') {
        let i = choose|i: int|
            0 <= i < p.len() && (#[trigger] p[i]).len() > 0 && p[i][0] == '.' && (p[i].len() > 1
                || i == 0);
        assert(i < b.len());
        assert(b[i] == p[i]);
    }
}

/// A file or directory below one whose name starts with a dot, or so named itself, is left
/// alone unless the policy includes what is hidden.
pub proof fn law_hidden_files_are_left_alone(
    pol: PolicyView,
    before: Seq<char>,
    part: Seq<char>,
    path: Seq<char>,
)
    requires
        !pol.include_hidden,
        !part.contains('/'),
        part.len() > 1,
        part[0] == '.',
    ensures
        !pol.admits(before + "/"@ + part),
        !descends(true, part, path, pol.excludes, pol.include_hidden),
{
    law_hidden_parts_count_at_any_depth(before, part);
}

/// Directories of credentials and keys, of version control and the trash are never walked,
/// and nothing below one is offloaded, whatever the policy says.
pub proof fn law_credentials_and_history_stay(
    pol: PolicyView,
    before: Seq<char>,
    dir: Seq<char>,
    name: Seq<char>,
    path: Seq<char>,
)
    requires
        dir == ".ssh"@ || dir == ".aws"@ || dir == ".gnupg"@ || dir == ".password-store"@ || dir
            == ".kube"@ || dir == ".docker"@ || dir == ".git"@ || dir == ".Trash"@ || dir
            == ".Trashes"@,
        !name.contains('/'),
    ensures
        !descends(true, dir, path, pol.excludes, pol.include_hidden),
        !pol.admits(before + "/"@ + dir + "/"@ + name),
{
    reveal_strlit(".ssh");
    reveal_strlit(".aws");
    reveal_strlit(".gnupg");
    reveal_strlit(".password-store");
    reveal_strlit(".kube");
    reveal_strlit(".docker");
    reveal_strlit(".git");
    reveal_strlit(".Trash");
    reveal_strlit(".Trashes");
    let s = sensitive_names();
    assert(s[0] == ".ssh"@ && s[1] == ".aws"@ && s[2] == ".gnupg"@);
    assert(s[3] == ".password-store"@ && s[4] == ".kube"@ && s[5] == ".docker"@);
    assert(s[6] == ".git"@ && s[7] == ".Trash"@ && s[8] == ".Trashes"@);
    assert(s.contains(dir));
    assert(!dir.contains('/'));
    law_guarded_directories_count_at_any_depth(before, dir, name);
}

/// Applications, libraries of pictures, films and music, and code bundles are never walked,
/// and nothing inside one is offloaded, whatever the policy says.
pub proof fn law_packages_stay_whole(
    pol: PolicyView,
    before: Seq<char>,
    stem: Seq<char>,
    ending: Seq<char>,
    name: Seq<char>,
    path: Seq<char>,
)
    requires
        ending == ".app"@ || ending == ".photoslibrary"@ || ending == ".imovielibrary"@ || ending
            == ".tvlibrary"@ || ending == ".musiclibrary"@ || ending == ".bundle"@ || ending
            == ".framework"@ || ending == ".aplibrary"@,
        !stem.contains('/'),
        !name.contains('/'),
    ensures
        !descends(true, stem + ending, path, pol.excludes, pol.include_hidden),
        !pol.admits(before + "/"@ + (stem + ending) + "/"@ + name),
{
    reveal_strlit(".app");
    reveal_strlit(".photoslibrary");
    reveal_strlit(".imovielibrary");
    reveal_strlit(".tvlibrary");
    reveal_strlit(".musiclibrary");
    reveal_strlit(".bundle");
    reveal_strlit(".framework");
    reveal_strlit(".aplibrary");
    let s = package_endings();
    assert(s[0] == ".app"@ && s[1] == ".photoslibrary"@ && s[2] == ".imovielibrary"@);
    assert(s[3] == ".tvlibrary"@ && s[4] == ".musiclibrary"@ && s[5] == ".bundle"@);
    assert(s[6] == ".framework"@ && s[7] == ".aplibrary"@);
    let dir = stem + ending;
    assert(s.contains(ending));
    let i = choose|i: int| 0 <= i < s.len() && s[i] == ending;
    assert(ending =~= dir.subrange(dir.len() - ending.len(), dir.len() as int));
    assert(s[i].is_suffix_of(dir));
    assert(is_package(dir));
    assert(!ending.contains('/'));
    assert forall|j: int| 0 <= j < dir.len() implies dir[j] != '/' by {
        if j < stem.len() {
            assert(stem.contains(stem[j]));
        } else {
            assert(ending.contains(ending[j - stem.len()]));
        }
    }
    law_guarded_directories_count_at_any_depth(before, dir, name);
}

/// A directory that is neither of these, not hidden and not excluded, is walked; a file is
/// never held back by the walk.
pub proof fn law_ordinary_directories_are_walked(
    pol: PolicyView,
    is_dir: bool,
    name: Seq<char>,
    path: Seq<char>,
)
    requires
        !is_dir || (!is_guarded(name) && (name.len() == 0 || name[0] != '.' || pol.include_hidden)
            && !is_excluded(path, pol.excludes)),
    ensures
        descends(is_dir, name, path, pol.excludes, pol.include_hidden),
{
}

/// What Spotlight prints is read in its two parts, the date before the NUL and the count after
/// it; without a NUL there is no count. White space around the count does not matter.
pub proof fn law_spotlight_prints_a_date_and_a_count(
    date: Seq<char>,
    count: Seq<char>,
    n: i64,
)
    requires
        !date.contains('\0'),
        !count.contains('\0'),
    ensures
        spotlight_parts(date + seq!['\0'] + count) == seq![date, count],
        spotlight_parts(date) == seq![date],
        spotlight_count(date) is None,
        count == text::dec(n as int) ==> spotlight_count(date + seq!['\0'] + count) == Some(
            n as int,
        ),
        count == seq![' '] + text::dec(n as int) + seq!['\n'] ==> spotlight_count(
            date + seq!['\0'] + count,
        ) == Some(n as int),
{
    let sep = Separator::Is('\0');
    let sp = Separator::Space;
    assert forall|i: int| 0 <= i < date.len() implies !sep.accepts(#[trigger] date[i]) by {
        assert(date.contains(date[i]));
    }
    assert forall|i: int| 0 <= i < count.len() implies !sep.accepts(#[trigger] count[i]) by {
        assert(count.contains(count[i]));
    }
    text::law_unbroken_text_is_one_piece(date, sep);
    text::law_unbroken_text_is_one_piece(count, sep);
    text::law_separators_part_the_pieces(date, '\0', count, sep);
    assert(seq![date] + seq![count] =~= seq![date, count]);
    let d = text::dec(n as int);
    text::law_numbers_read_back(n as int);
    lemma_number_ends(n as int);
    let none = Seq::<char>::empty();
    assert(none + d + none =~= d);
    text::law_trimming_takes_the_ends_only(none, d, none, sp);
    assert(sp.accepts(' ') && sp.accepts('\n'));
    text::law_trimming_takes_the_ends_only(seq![' '], d, seq!['\n'], sp);
}

proof fn lemma_number_ends(n: int)
    ensures
        text::dec(n).len() > 0,
        !Separator::Space.accepts(text::dec(n)[0]),
        !Separator::Space.accepts(text::dec(n).last()),
{
    let x = if n < 0 {
        -n
    } else {
        n
    };
    let digits = text::dec_nat(x as nat);
    text::lemma_dec_nat(x as nat);
    assert(text::is_digit(digits[0]));
    assert(text::is_digit(digits[digits.len() - 1]));
    if n < 0 {
        assert(text::dec(n)[0] == '-');
        assert(text::dec(n).last() == digits.last());
    }
}

/// By default nothing in the Library, among the applications, in the trash, under version
/// control, among downloaded modules, build products or virtual environments is offloaded, or
/// walked into.
pub proof fn law_system_and_build_areas_are_left_alone(
    home: Seq<char>,
    before: Seq<char>,
    area: Seq<char>,
    after: Seq<char>,
    name: Seq<char>,
)
    requires
        area == "/Library/"@ || area == "/Applications/"@ || area == "/.Trash/"@ || area
            == "node_modules"@ || area == "/.git/"@ || area == "/DerivedData/"@ || area
            == "/.venv/"@,
    ensures
        !config::standard_policy(home).admits(before + area + after),
        !descends(
            true,
            name,
            before + area + after,
            config::standard_policy(home).excludes,
            config::standard_policy(home).include_hidden,
        ),
{
    let pol = config::standard_policy(home);
    let a = config::areas();
    assert(a[0] == "/Library/"@ && a[1] == "/Applications/"@ && a[2] == "/.Trash/"@);
    assert(a[3] == "node_modules"@ && a[4] == "/.git/"@ && a[5] == "/DerivedData/"@);
    assert(a[6] == "/.venv/"@);
    assert(a.contains(area));
    let k = choose|k: int| 0 <= k < a.len() && a[k] == area;
    assert(pol.excludes[k] == area);
    law_excluded_texts_hold_back(pol, before, k, after, name);
}

/// By default the whole home directory is scanned, for files of ten mebibytes or more that were
/// not used for ninety days, and nothing hidden.
pub proof fn law_the_default_policy_is_conservative(home: Seq<char>, now: i64, e: EntryView)
    ensures
        config::standard_policy(home).roots == seq![home],
        e.len < 10 * 1024 * 1024 ==> config::standard_policy(home).verdict(now, e) is None,
        e.last_used matches Some(t) ==> (now - t < 90 * 86_400 ==> config::standard_policy(
            home,
        ).verdict(now, e) is None),
        e.last_used is None && (now - e.atime < 90 * 86_400 || now - e.mtime < 90 * 86_400)
            ==> config::standard_policy(home).verdict(now, e) is None,
        has_hidden_part(e.path) ==> config::standard_policy(home).verdict(now, e) is None,
        e.last_used is None && e.is_file && !e.placeholder && e.len >= 10 * 1024 * 1024 && now
            - e.atime >= 90 * 86_400 && now - e.mtime >= 90 * 86_400
            && config::standard_policy(home).admits(e.path) ==> config::standard_policy(
            home,
        ).verdict(now, e) is Some,
{
}

/// No directory but those is guarded: one of another name, without the ending of a package, is
/// not.
pub proof fn law_other_directories_are_not_guarded(name: Seq<char>)
    requires
        name != ".ssh"@ && name != ".aws"@ && name != ".gnupg"@ && name != ".password-store"@
            && name != ".kube"@ && name != ".docker"@ && name != ".git"@ && name != ".Trash"@
            && name != ".Trashes"@,
        forall|stem: Seq<char>|
            name != #[trigger] (stem + ".app"@) && name != stem + ".photoslibrary"@ && name != stem
                + ".imovielibrary"@ && name != stem + ".tvlibrary"@ && name != stem
                + ".musiclibrary"@ && name != stem + ".bundle"@ && name != stem + ".framework"@
                && name != stem + ".aplibrary"@,
    ensures
        !is_guarded(name),
{
    let s = package_endings();
    if is_package(name) {
        let i = choose|i: int| 0 <= i < s.len() && (#[trigger] s[i]).is_suffix_of(name);
        let stem = name.take(name.len() - s[i].len());
        assert(s[i] =~= name.subrange(name.len() - s[i].len(), name.len() as int));
        assert(name =~= stem + s[i]);
        assert(name != stem + ".app"@);
        assert(s[0] == ".app"@ && s[1] == ".photoslibrary"@ && s[2] == ".imovielibrary"@);
        assert(s[3] == ".tvlibrary"@ && s[4] == ".musiclibrary"@ && s[5] == ".bundle"@);
        assert(s[6] == ".framework"@ && s[7] == ".aplibrary"@);
    }
    let t = sensitive_names();
    if t.contains(name) {
        let i = choose|i: int| 0 <= i < t.len() && t[i] == name;
        assert(t[0] == ".ssh"@ && t[1] == ".aws"@ && t[2] == ".gnupg"@);
        assert(t[3] == ".password-store"@ && t[4] == ".kube"@ && t[5] == ".docker"@);
        assert(t[6] == ".git"@ && t[7] == ".Trash"@ && t[8] == ".Trashes"@);
    }
}

/// A scan can be made of every walk over files with times since 1970, by every policy with a
/// minimum age of up to a million years.
pub proof fn law_ordinary_walks_can_be_scanned(pol: PolicyView, now: i64, found: Seq<EntryView>)
    requires
        pol.min_age_days <= 365_000_000,
        now >= 0,
        forall|i: int|
            0 <= i < found.len() ==> (#[trigger] found[i]).atime >= 0 && found[i].mtime >= 0 && (
            found[i].last_used is Some ==> found[i].last_used->0 >= 0),
    ensures
        ages_fit(pol, now, found),
{
    assert forall|i: int|
        0 <= i < found.len() && pol.considers(#[trigger] found[i]) implies dates::fits(
        now - found[i].used(),
    ) by {
        assert(found[i].atime >= 0);
    }
}

} // verus!

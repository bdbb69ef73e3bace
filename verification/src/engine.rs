//! The commands that only compute: the configuration, the report on what is offloaded,
//! the candidates for offloading, and the tally of an automatic run.

use vstd::prelude::*;

use crate::config::{Config, ConfigView, Policy, PolicyView};
use crate::error;
use crate::error::{Fault, StowError, StowResult};
use crate::index::{Index, Record, ShareRow};
use crate::lists;
use crate::migrate;
use crate::migrate::{AutoFailure, AutoFailureView};
use crate::offload::OffloadResult;
use crate::order;
use crate::placeholder;
use crate::placeholder::Probe;
use crate::policy::Candidate;
use crate::provider::Item;
use crate::text;

verus! {

// ---- configuration ------------------------------------------------------------------

/// The configuration that was read, or `missing` where there is none.
pub open spec fn required(
    loaded: Result<Option<ConfigView>, Fault>,
    missing: Seq<char>,
) -> Result<ConfigView, Fault> {
    match loaded {
        Err(e) => Err(e),
        Ok(None) => Err(Fault::InvalidConfig(missing)),
        Ok(Some(cfg)) => Ok(cfg),
    }
}

/// The configuration that was read, or an error with the text `missing` where there is
/// none.
pub fn require_config(loaded: StowResult<Option<Config>>, missing: &str) -> (r: StowResult<Config>)
    ensures
        error::outcome_of(r) == required(error::outcome_opt(loaded), missing@),
{
    match loaded {
        Err(e) => Err(e),
        Ok(None) => Err(StowError::InvalidConfig(missing.to_owned())),
        Ok(Some(cfg)) => Ok(cfg),
    }
}

/// What a command says when Stow was not set up.
pub open spec fn not_initialized() -> Seq<char> {
    "Stow is not initialized — run `stow init` first"@
}

/// The configuration that was read. It is an error if Stow was not set up.
pub fn load_cfg(loaded: StowResult<Option<Config>>) -> (r: StowResult<Config>)
    ensures
        error::outcome_of(r) == required(error::outcome_opt(loaded), not_initialized()),
{
    require_config(loaded, "Stow is not initialized — run `stow init` first")
}

/// The configuration as it was read.
pub fn get_config(loaded: StowResult<Option<Config>>) -> (r: StowResult<Config>)
    ensures
        error::outcome_of(r) == required(error::outcome_opt(loaded), not_initialized()),
{
    load_cfg(loaded)
}

/// The configuration to write when the policy is replaced.
pub open spec fn with_policy(
    parsed: Result<PolicyView, Seq<char>>,
    loaded: Result<Option<ConfigView>, Fault>,
) -> Result<ConfigView, Fault> {
    match parsed {
        Err(m) => Err(Fault::InvalidConfig("policy: "@ + m)),
        Ok(policy) => match required(loaded, not_initialized()) {
            Err(e) => Err(e),
            Ok(cfg) => Ok(ConfigView { policy, ..cfg }),
        },
    }
}

/// The configuration to write when the policy is replaced. `parsed` is the new policy, or
/// why it cannot be understood.
pub fn set_policy(parsed: Result<Policy, String>, loaded: StowResult<Option<Config>>) -> (r:
    StowResult<Config>)
    ensures
        error::outcome_of(r) == with_policy(error::reply_of(parsed), error::outcome_opt(loaded)),
{
    match parsed {
        Err(m) => Err(StowError::InvalidConfig(text::cat2("policy: ", m.as_str()))),
        Ok(policy) => match load_cfg(loaded) {
            Err(e) => Err(e),
            Ok(mut cfg) => {
                cfg.policy = policy;
                Ok(cfg)
            },
        },
    }
}

/// What is read once the outcome of replacing the policy was written: the new configuration
/// where there is one, else what was there.
pub open spec fn read_after(
    loaded: Result<Option<ConfigView>, Fault>,
    outcome: Result<ConfigView, Fault>,
) -> Result<Option<ConfigView>, Fault> {
    match outcome {
        Ok(cfg) => Ok(Some(cfg)),
        Err(_) => loaded,
    }
}

/// A policy that was set is read back: the configuration is then the one that setting it
/// gave, with the new policy in place of the old one and all else as it was. A policy that
/// cannot be understood is refused and changes nothing.
pub proof fn law_a_policy_that_was_set_is_read_back(
    cfg: ConfigView,
    parsed: Result<PolicyView, Seq<char>>,
)
    ensures
        ({
            let loaded = Ok::<Option<ConfigView>, Fault>(Some(cfg));
            let outcome = with_policy(parsed, loaded);
            let read = required(read_after(loaded, outcome), not_initialized());
            match parsed {
                Ok(policy) => outcome == Ok::<ConfigView, Fault>(ConfigView { policy, ..cfg })
                    && read == outcome,
                Err(m) => outcome == Err::<ConfigView, Fault>(
                    Fault::InvalidConfig("policy: "@ + m),
                ) && read == Ok::<ConfigView, Fault>(cfg),
            }
        }),
{
}

// ---- arguments and replies ----------------------------------------------------------

/// A text argument as a caller in another language hands it over.
pub enum Arg {
    /// A null pointer.
    Null,
    /// Bytes that are not valid UTF-8.
    NotText,
    Text(String),
}

/// The text of an argument. A missing or malformed one is an error that names it.
pub fn text_arg(name: &str, a: Arg) -> (r: StowResult<String>)
    ensures
        error::outcome_of(r) == match a {
            Arg::Null => Err(Fault::InvalidArg(name@ + " is null"@)),
            Arg::NotText => Err(Fault::InvalidArg(name@ + " is not valid UTF-8"@)),
            Arg::Text(s) => Ok(s@),
        },
{
    match a {
        Arg::Null => Err(StowError::InvalidArg(text::cat2(name, " is null"))),
        Arg::NotText => Err(StowError::InvalidArg(text::cat2(name, " is not valid UTF-8"))),
        Arg::Text(s) => Ok(s),
    }
}

/// What a caller in another language is told of an error: its text and its code.
pub fn report(e: &StowError) -> (r: (String, i32))
    ensures
        r.0@ == e@.text(),
        r.1 == e@.status().number(),
        r.1 != 0,
{
    (e.message(), e.status().code())
}

/// The item that was looked up. It is an error if there is none.
pub fn require_item(found: StowResult<Option<Item>>, item_id: &str) -> (r: StowResult<Item>)
    ensures
        error::outcome_of(r) == match error::outcome_opt(found) {
            Err(e) => Err(e),
            Ok(None) => Err(Fault::NotFound(item_id@)),
            Ok(Some(it)) => Ok(it),
        },
{
    match found {
        Err(e) => Err(e),
        Ok(None) => Err(StowError::NotFound(item_id.to_owned())),
        Ok(Some(it)) => Ok(it),
    }
}

// ---- candidates ---------------------------------------------------------------------

/// What could be offloaded.
pub struct ScanResult {
    pub candidate_count: usize,
    pub reclaimable_bytes: i64,
    pub min_size_bytes: u64,
    pub min_age_days: u64,
    pub roots: Vec<String>,
    pub candidates: Vec<Candidate>,
}

/// The sizes of some candidates.
pub open spec fn candidate_sizes(c: Seq<Candidate>) -> Seq<int> {
    c.map_values(|x: Candidate| x.size as int)
}

/// Tells whether the total size of some candidates is in range.
pub fn check_candidates(c: &Vec<Candidate>) -> (r: bool)
    ensures
        r == lists::sums_fit(candidate_sizes(c@)),
{
    let mut v: Vec<i64> = Vec::new();
    let mut i: usize = 0;
    while i < c.len()
        invariant
            i <= c.len(),
            v@.len() == i,
            forall|j: int| 0 <= j < i ==> v@[j] == (#[trigger] c@[j]).size,
        decreases c.len() - i,
    {
        v.push(c[i].size);
        i += 1;
    }
    assert(v@.map_values(|x: i64| x as int) =~= candidate_sizes(c@));
    lists::check_sums(&v)
}

/// Reports the candidates of a policy, without changing anything.
pub fn scan(cfg: &Config, candidates: Vec<Candidate>) -> (r: ScanResult)
    requires
        lists::sums_fit(candidate_sizes(candidates@)),
    ensures
        r.candidate_count == candidates@.len(),
        r.reclaimable_bytes == lists::sum(candidate_sizes(candidates@)),
        r.min_size_bytes == cfg@.policy.min_size_bytes,
        r.min_age_days == cfg@.policy.min_age_days,
        text::texts(r.roots@) == cfg@.policy.roots,
        r.candidates == candidates,
{
    let ghost all = candidate_sizes(candidates@);
    let mut total: i64 = 0;
    let mut i: usize = 0;
    assert(lists::sum(all.take(0)) == 0);
    while i < candidates.len()
        invariant
            i <= candidates.len(),
            all == candidate_sizes(candidates@),
            lists::sums_fit(all),
            total == lists::sum(all.take(i as int)),
        decreases candidates.len() - i,
    {
        proof {
            lists::lemma_sum_take(all, i as int);
            assert(all[i as int] == candidates@[i as int].size);
            assert(i64::MIN <= lists::sum(all.take(i + 1)) <= i64::MAX);
        }
        total = total + candidates[i].size;
        i += 1;
    }
    assert(all.take(all.len() as int) =~= all);
    ScanResult {
        candidate_count: candidates.len(),
        reclaimable_bytes: total,
        min_size_bytes: cfg.policy.min_size_bytes,
        min_age_days: cfg.policy.min_age_days,
        roots: text::clone_texts(&cfg.policy.roots),
        candidates,
    }
}

// ---- automatic offloading -----------------------------------------------------------

/// What came of an automatic run.
pub struct AutoResult {
    pub offloaded_count: usize,
    pub bytes_freed: i64,
    pub offloaded: Vec<String>,
    pub failures: Vec<AutoFailure>,
}

/// What came of offloading one candidate: its path, and the bytes that were freed or the
/// text of the error.
pub open spec fn attempt(c: Candidate, outcome: StowResult<OffloadResult>) -> (
    Seq<char>,
    Result<i64, Seq<char>>,
) {
    (
        c.path@,
        match outcome {
            Ok(o) => Ok(o.bytes_freed),
            Err(e) => Err(e@.text()),
        },
    )
}

/// What came of offloading the candidates.
pub open spec fn attempts(c: Seq<Candidate>, outcomes: Seq<StowResult<OffloadResult>>) -> Seq<
    (Seq<char>, Result<i64, Seq<char>>),
> {
    Seq::new(c.len(), |i: int| attempt(c[i], outcomes[i]))
}

/// The paths of the candidates that were offloaded.
pub open spec fn offloaded(a: Seq<(Seq<char>, Result<i64, Seq<char>>)>) -> Seq<Seq<char>> {
    a.filter_map(
        |x: (Seq<char>, Result<i64, Seq<char>>)|
            match x.1 {
                Ok(_) => Some(x.0),
                Err(_) => None,
            },
    )
}

/// The candidates that were not offloaded, and why.
pub open spec fn failed(a: Seq<(Seq<char>, Result<i64, Seq<char>>)>) -> Seq<AutoFailureView> {
    a.filter_map(
        |x: (Seq<char>, Result<i64, Seq<char>>)|
            match x.1 {
                Ok(_) => None,
                Err(m) => Some(AutoFailureView { path: x.0, error: m }),
            },
    )
}

/// The bytes that each candidate has freed.
pub open spec fn freed(a: Seq<(Seq<char>, Result<i64, Seq<char>>)>) -> Seq<int> {
    a.map_values(
        |x: (Seq<char>, Result<i64, Seq<char>>)|
            match x.1 {
                Ok(n) => n as int,
                Err(_) => 0,
            },
    )
}

/// Tells whether the bytes that were freed are in range.
pub fn check_outcomes(candidates: &Vec<Candidate>, outcomes: &Vec<StowResult<OffloadResult>>) -> (r:
    bool)
    requires
        candidates.len() == outcomes.len(),
    ensures
        r == lists::sums_fit(freed(attempts(candidates@, outcomes@))),
{
    let mut v: Vec<i64> = Vec::new();
    let mut i: usize = 0;
    let ghost all = freed(attempts(candidates@, outcomes@));
    while i < outcomes.len()
        invariant
            i <= outcomes.len(),
            candidates.len() == outcomes.len(),
            all == freed(attempts(candidates@, outcomes@)),
            v@.len() == i,
            forall|j: int| 0 <= j < i ==> v@[j] == #[trigger] all[j],
        decreases outcomes.len() - i,
    {
        let n: i64 = match &outcomes[i] {
            Ok(o) => o.bytes_freed,
            Err(_) => 0,
        };
        v.push(n);
        i += 1;
    }
    assert(v@.map_values(|x: i64| x as int) =~= all);
    lists::check_sums(&v)
}

/// Tallies an automatic run: `outcomes` says for each candidate what came of offloading
/// it. A failure does not end the run.
pub fn auto_offload(candidates: &Vec<Candidate>, outcomes: &Vec<StowResult<OffloadResult>>) -> (r:
    AutoResult)
    requires
        candidates.len() == outcomes.len(),
        lists::sums_fit(freed(attempts(candidates@, outcomes@))),
    ensures
        text::texts(r.offloaded@) == offloaded(attempts(candidates@, outcomes@)),
        migrate::failures_of(r.failures@) == failed(attempts(candidates@, outcomes@)),
        r.offloaded_count == r.offloaded@.len(),
        r.bytes_freed == lists::sum(freed(attempts(candidates@, outcomes@))),
{
    let ghost all = attempts(candidates@, outcomes@);
    let ghost gains = freed(all);
    let mut bytes_freed: i64 = 0;
    let mut done: Vec<String> = Vec::new();
    let mut failures: Vec<AutoFailure> = Vec::new();
    let mut i: usize = 0;
    assert(lists::sum(gains.take(0)) == 0);
    assert(text::texts(done@) =~= offloaded(all.take(0)));
    assert(migrate::failures_of(failures@) =~= failed(all.take(0)));
    while i < candidates.len()
        invariant
            i <= candidates.len(),
            candidates.len() == outcomes.len(),
            all == attempts(candidates@, outcomes@),
            gains == freed(all),
            lists::sums_fit(gains),
            bytes_freed == lists::sum(gains.take(i as int)),
            text::texts(done@) == offloaded(all.take(i as int)),
            migrate::failures_of(failures@) == failed(all.take(i as int)),
        decreases candidates.len() - i,
    {
        let ghost old_done = done@;
        let ghost old_failures = failures@;
        proof {
            lists::lemma_sum_take(gains, i as int);
            assert(i64::MIN <= lists::sum(gains.take(i + 1)) <= i64::MAX);
            assert(all.take(i + 1).drop_last() =~= all.take(i as int));
            assert(all[i as int] == attempt(candidates@[i as int], outcomes@[i as int]));
        }
        let path = candidates[i].path.clone();
        match &outcomes[i] {
            Ok(o) => {
                bytes_freed = bytes_freed + o.bytes_freed;
                done.push(path);
                assert(text::texts(done@) =~= text::texts(old_done) + seq![path@]);
            },
            Err(e) => {
                let f = AutoFailure { path, error: e.message() };
                let ghost fv = f@;
                failures.push(f);
                assert(migrate::failures_of(failures@) =~= migrate::failures_of(old_failures)
                    + seq![fv]);
            },
        }
        i += 1;
    }
    assert(gains.take(gains.len() as int) =~= gains);
    assert(all.take(all.len() as int) =~= all);
    AutoResult { offloaded_count: done.len(), bytes_freed, offloaded: done, failures }
}

/// An automatic run accounts for every candidate: each is offloaded or has failed.
pub proof fn law_a_run_accounts_for_every_candidate(a: Seq<(Seq<char>, Result<i64, Seq<char>>)>)
    ensures
        offloaded(a).len() + failed(a).len() == a.len(),
    decreases a.len(),
{
    if a.len() > 0 {
        law_a_run_accounts_for_every_candidate(a.drop_last());
    }
}

// ---- status -------------------------------------------------------------------------

pub struct StatusItem {
    pub path: String,
    pub size: i64,
    pub hash: String,
    pub present_as_placeholder: bool,
}

/// The content of a `StatusItem`.
pub struct StatusItemView {
    pub path: Seq<char>,
    pub size: i64,
    pub hash: Seq<char>,
    pub present_as_placeholder: bool,
}

impl View for StatusItem {
    type V = StatusItemView;

    open spec fn view(&self) -> StatusItemView {
        StatusItemView {
            path: self.path@,
            size: self.size,
            hash: self.hash@,
            present_as_placeholder: self.present_as_placeholder,
        }
    }
}

/// A file of the Stow folder whose bytes are only in the bucket.
pub struct FolderItem {
    pub filename: String,
    pub size: i64,
}

/// What Stow has offloaded.
pub struct StatusResult {
    pub bucket: String,
    pub region: String,
    pub count: usize,
    pub bytes_offloaded: i64,
    /// Files that save disk space now, and their bytes: files in place whose bytes are
    /// not back, and the files of the Stow folder.
    pub saved_count: usize,
    pub saved_bytes: i64,
    pub items: Vec<StatusItem>,
    pub folder_count: usize,
    pub folder_bytes: i64,
    pub folder_items: Vec<FolderItem>,
}

/// What is seen of an offloaded file: whether its item in the mirror area is dataless,
/// where it has one; whether there is something at its path, and what.
pub struct Sight {
    pub mirror: Option<bool>,
    pub exists: bool,
    pub probe: Probe,
}

/// Whether an offloaded file saves disk space: it was not restored, and no item in the
/// mirror area holds its bytes.
pub open spec fn saving(r: Record, s: Sight) -> bool {
    !r.restored && s.mirror != Some(false)
}

/// Whether a placeholder stands at the path of an offloaded file.
pub open spec fn present(s: Sight, inplace: Seq<char>) -> bool {
    s.exists && s.probe@.placeholder(inplace) == Ok::<bool, Fault>(true)
}

/// What is reported of an offloaded file.
pub open spec fn status_item(r: Record, s: Sight, inplace: Seq<char>) -> StatusItemView {
    StatusItemView {
        path: r.path@,
        size: r.size,
        hash: r.hash@,
        present_as_placeholder: present(s, inplace),
    }
}

/// The sizes of some offloaded files.
pub open spec fn record_sizes(items: Seq<Record>) -> Seq<int> {
    items.map_values(|r: Record| r.size as int)
}

/// The bytes that each offloaded file saves.
pub open spec fn saved_sizes(items: Seq<Record>, sights: Seq<Sight>) -> Seq<int> {
    Seq::new(
        items.len(),
        |i: int|
            if saving(items[i], sights[i]) {
                items[i].size as int
            } else {
                0
            },
    )
}

/// One for each offloaded file that saves disk space.
pub open spec fn saved_marks(items: Seq<Record>, sights: Seq<Sight>) -> Seq<int> {
    Seq::new(
        items.len(),
        |i: int|
            if saving(items[i], sights[i]) {
                1int
            } else {
                0int
            },
    )
}

/// The sizes of some files of the Stow folder.
pub open spec fn folder_sizes(folder: Seq<FolderItem>) -> Seq<int> {
    folder.map_values(|f: FolderItem| f.size as int)
}

/// Whether the totals of a report are in range.
pub open spec fn totals_fit(items: Seq<Record>, sights: Seq<Sight>, folder: Seq<FolderItem>) -> bool {
    &&& lists::sums_fit(record_sizes(items))
    &&& lists::sums_fit(saved_sizes(items, sights))
    &&& lists::sums_fit(folder_sizes(folder))
    &&& i64::MIN <= lists::sum(saved_sizes(items, sights)) + lists::sum(folder_sizes(folder))
        <= i64::MAX
    &&& items.len() + folder.len() <= usize::MAX
}

fn all_sizes(items: &Vec<Record>) -> (r: Vec<i64>)
    ensures
        r@.map_values(|x: i64| x as int) == record_sizes(items@),
{
    let mut v: Vec<i64> = Vec::new();
    let mut i: usize = 0;
    while i < items.len()
        invariant
            i <= items.len(),
            v@.len() == i,
            forall|j: int| 0 <= j < i ==> v@[j] == (#[trigger] items@[j]).size,
        decreases items.len() - i,
    {
        v.push(items[i].size);
        i += 1;
    }
    assert(v@.map_values(|x: i64| x as int) =~= record_sizes(items@));
    v
}

fn is_saving(r: &Record, s: &Sight) -> (b: bool)
    ensures
        b == saving(*r, *s),
{
    if r.restored {
        return false;
    }
    match s.mirror {
        Some(dataless) => dataless,
        None => true,
    }
}

fn all_saved_sizes(items: &Vec<Record>, sights: &Vec<Sight>) -> (r: Vec<i64>)
    requires
        items.len() == sights.len(),
    ensures
        r@.map_values(|x: i64| x as int) == saved_sizes(items@, sights@),
{
    let mut v: Vec<i64> = Vec::new();
    let mut i: usize = 0;
    let ghost all = saved_sizes(items@, sights@);
    while i < items.len()
        invariant
            i <= items.len(),
            items.len() == sights.len(),
            all == saved_sizes(items@, sights@),
            v@.len() == i,
            forall|j: int| 0 <= j < i ==> v@[j] == #[trigger] all[j],
        decreases items.len() - i,
    {
        let n: i64 = if is_saving(&items[i], &sights[i]) {
            items[i].size
        } else {
            0
        };
        v.push(n);
        i += 1;
    }
    assert(v@.map_values(|x: i64| x as int) =~= all);
    v
}

fn all_folder_sizes(folder: &Vec<FolderItem>) -> (r: Vec<i64>)
    ensures
        r@.map_values(|x: i64| x as int) == folder_sizes(folder@),
{
    let mut v: Vec<i64> = Vec::new();
    let mut i: usize = 0;
    while i < folder.len()
        invariant
            i <= folder.len(),
            v@.len() == i,
            forall|j: int| 0 <= j < i ==> v@[j] == (#[trigger] folder@[j]).size,
        decreases folder.len() - i,
    {
        v.push(folder[i].size);
        i += 1;
    }
    assert(v@.map_values(|x: i64| x as int) =~= folder_sizes(folder@));
    v
}

/// The sum of some numbers.
fn total(v: &Vec<i64>) -> (r: i64)
    requires
        lists::sums_fit(v@.map_values(|x: i64| x as int)),
    ensures
        r == lists::sum(v@.map_values(|x: i64| x as int)),
{
    let ghost all = v@.map_values(|x: i64| x as int);
    let mut sum: i64 = 0;
    let mut i: usize = 0;
    assert(lists::sum(all.take(0)) == 0);
    while i < v.len()
        invariant
            i <= v.len(),
            all == v@.map_values(|x: i64| x as int),
            lists::sums_fit(all),
            sum == lists::sum(all.take(i as int)),
        decreases v.len() - i,
    {
        proof {
            lists::lemma_sum_take(all, i as int);
            assert(i64::MIN <= lists::sum(all.take(i + 1)) <= i64::MAX);
        }
        sum = sum + v[i];
        i += 1;
    }
    assert(all.take(all.len() as int) =~= all);
    sum
}

/// Tells whether the totals of a report are in range.
pub fn check_status(items: &Vec<Record>, sights: &Vec<Sight>, folder: &Vec<FolderItem>) -> (r: bool)
    requires
        items.len() == sights.len(),
    ensures
        r == totals_fit(items@, sights@, folder@),
{
    let a = all_sizes(items);
    let b = all_saved_sizes(items, sights);
    let c = all_folder_sizes(folder);
    if !lists::check_sums(&a) || !lists::check_sums(&b) || !lists::check_sums(&c) {
        return false;
    }
    let saved: i64 = total(&b);
    let held: i64 = total(&c);
    if saved.checked_add(held).is_none() {
        return false;
    }
    items.len().checked_add(folder.len()).is_some()
}

/// Reports what Stow has offloaded. `items` are the offloaded files, `sights` what is
/// seen of each, `folder` the files of the Stow folder whose bytes are only in the
/// bucket, and `inplace` the name of the mirror area.
pub fn status(
    cfg: &Config,
    items: &Vec<Record>,
    sights: &Vec<Sight>,
    folder: Vec<FolderItem>,
    inplace: &str,
) -> (r: StatusResult)
    requires
        items.len() == sights.len(),
        totals_fit(items@, sights@, folder@),
    ensures
        r.bucket@ == cfg@.bucket,
        r.region@ == cfg@.region,
        r.count == items@.len(),
        r.bytes_offloaded == lists::sum(record_sizes(items@)),
        r.saved_count == lists::sum(saved_marks(items@, sights@)) + folder@.len(),
        r.saved_bytes == lists::sum(saved_sizes(items@, sights@)) + lists::sum(
            folder_sizes(folder@),
        ),
        r.items@.len() == items@.len(),
        forall|i: int|
            0 <= i < items@.len() ==> (#[trigger] r.items@[i])@ == status_item(
                items@[i],
                sights@[i],
                inplace@,
            ),
        r.folder_count == folder@.len(),
        r.folder_bytes == lists::sum(folder_sizes(folder@)),
        r.folder_items == folder,
{
    let a = all_sizes(items);
    let b = all_saved_sizes(items, sights);
    let c = all_folder_sizes(&folder);
    let bytes_offloaded = total(&a);
    let saved_in_place = total(&b);
    let folder_bytes = total(&c);
    let ghost marks = saved_marks(items@, sights@);
    let mut saved: usize = 0;
    let mut out: Vec<StatusItem> = Vec::new();
    let mut i: usize = 0;
    assert(lists::sum(marks.take(0)) == 0);
    while i < items.len()
        invariant
            i <= items.len(),
            items.len() == sights.len(),
            marks == saved_marks(items@, sights@),
            saved <= i,
            saved == lists::sum(marks.take(i as int)),
            out@.len() == i,
            forall|j: int|
                0 <= j < i ==> (#[trigger] out@[j])@ == status_item(
                    items@[j],
                    sights@[j],
                    inplace@,
                ),
        decreases items.len() - i,
    {
        proof {
            lists::lemma_sum_take(marks, i as int);
        }
        if is_saving(&items[i], &sights[i]) {
            saved += 1;
        }
        let there = if sights[i].exists {
            match placeholder::is_placeholder(&sights[i].probe, inplace) {
                Ok(b) => b,
                Err(_) => false,
            }
        } else {
            false
        };
        out.push(
            StatusItem {
                path: items[i].path.clone(),
                size: items[i].size,
                hash: items[i].hash.clone(),
                present_as_placeholder: there,
            },
        );
        i += 1;
    }
    assert(marks.take(marks.len() as int) =~= marks);
    StatusResult {
        bucket: cfg.bucket.clone(),
        region: cfg.region.clone(),
        count: items.len(),
        bytes_offloaded,
        saved_count: saved + folder.len(),
        saved_bytes: saved_in_place + folder_bytes,
        items: out,
        folder_count: folder.len(),
        folder_bytes,
        folder_items: folder,
    }
}

/// A file that is restored no longer counts as saved, and nothing else changes in the
/// count.
pub proof fn law_a_restored_file_saves_nothing(items: Seq<Record>, sights: Seq<Sight>, i: int)
    requires
        items.len() == sights.len(),
        0 <= i < items.len(),
    ensures
        lists::sum(
            saved_marks(items.update(i, Record { restored: true, ..items[i] }), sights),
        ) == lists::sum(saved_marks(items, sights)) - (if saving(items[i], sights[i]) {
            1int
        } else {
            0int
        }),
        lists::sum(
            saved_sizes(items.update(i, Record { restored: true, ..items[i] }), sights),
        ) == lists::sum(saved_sizes(items, sights)) - (if saving(items[i], sights[i]) {
            items[i].size as int
        } else {
            0int
        }),
{
    let after = items.update(i, Record { restored: true, ..items[i] });
    let m = saved_marks(items, sights);
    let z = saved_sizes(items, sights);
    assert(saved_marks(after, sights) =~= m.update(i, 0int));
    assert(saved_sizes(after, sights) =~= z.update(i, 0int));
    lists::lemma_sum_update(m, i, 0int);
    lists::lemma_sum_update(z, i, 0int);
}

// ---- share links --------------------------------------------------------------------

/// The share links.
pub struct SharesList {
    pub shares: Vec<ShareRow>,
}

/// All share links, newest first.
pub fn list_shares(index: &Index) -> (r: SharesList)
    ensures
        order::stably_sorted(index.shares(), r.shares@),
{
    SharesList { shares: index.list_shares() }
}

/// What needs a configuration gets the one that was read, or the error of reading it; where there
/// is none, it is told to set Stow up.
pub proof fn law_without_a_configuration_nothing_is_done(
    cfg: ConfigView,
    e: Fault,
    message: Seq<char>,
)
    ensures
        required(Ok(Some(cfg)), message) == Ok::<ConfigView, Fault>(cfg),
        required(Ok(None), message) == Err::<ConfigView, Fault>(Fault::InvalidConfig(message)),
        required(Err(e), message) == Err::<ConfigView, Fault>(e),
        not_initialized() == "Stow is not initialized — run `stow init` first"@,
{
}

} // verus!

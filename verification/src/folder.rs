//! The files of the Stow folder: creating them, changing their content and reading it.

use vstd::prelude::*;

use crate::config::{Config, ConfigView};
use crate::effects;
use crate::effects::{Action, ActionView, Flow, Reply, ReplyView, Step, StepView};
use crate::engine;
use crate::error;
use crate::error::{Fault, StowError, StowResult};
use crate::hash;
use crate::provider::{Item, ItemView};
use crate::text;
use crate::text::Separator;

verus! {

// ---- configuration --------------------------------------------------------------

/// The configuration that an item is created with. It is an error if Stow was not set
/// up.
pub fn config_to_create(loaded: StowResult<Option<Config>>) -> (r: StowResult<Config>)
    ensures
        error::outcome_of(r) == engine::required(
            error::outcome_opt(loaded),
            "not initialized — run `stow init`"@,
        ),
{
    engine::require_config(loaded, "not initialized — run `stow init`")
}

/// The configuration that an item is changed or fetched with. It is an error if Stow was
/// not set up.
pub fn config_to_use(loaded: StowResult<Option<Config>>) -> (r: StowResult<Config>)
    ensures
        error::outcome_of(r) == engine::required(
            error::outcome_opt(loaded),
            "not initialized"@,
        ),
{
    engine::require_config(loaded, "not initialized")
}

// ---- content types --------------------------------------------------------------

/// The content type for a lowercase file extension.
pub open spec fn type_of(ext: Seq<char>) -> Seq<char> {
    if ext == "txt"@ {
        "public.plain-text"@
    } else if ext == "pdf"@ {
        "com.adobe.pdf"@
    } else if ext == "png"@ {
        "public.png"@
    } else if ext == "jpg"@ || ext == "jpeg"@ {
        "public.jpeg"@
    } else if ext == "mov"@ {
        "com.apple.quicktime-movie"@
    } else if ext == "mp4"@ {
        "public.mpeg-4"@
    } else if ext == "zip"@ {
        "public.zip-archive"@
    } else {
        "public.data"@
    }
}

/// The content type for a lowercase file extension.
pub fn type_for_extension(ext: &str) -> (r: String)
    ensures
        r@ == type_of(ext@),
{
    if text::same(ext, "txt") {
        "public.plain-text".to_owned()
    } else if text::same(ext, "pdf") {
        "com.adobe.pdf".to_owned()
    } else if text::same(ext, "png") {
        "public.png".to_owned()
    } else if text::same(ext, "jpg") || text::same(ext, "jpeg") {
        "public.jpeg".to_owned()
    } else if text::same(ext, "mov") {
        "com.apple.quicktime-movie".to_owned()
    } else if text::same(ext, "mp4") {
        "public.mpeg-4".to_owned()
    } else if text::same(ext, "zip") {
        "public.zip-archive".to_owned()
    } else {
        "public.data".to_owned()
    }
}

/// What follows the last dot of a file name, or all of it where there is none.
pub open spec fn extension(filename: Seq<char>) -> Seq<char> {
    text::split_at(filename, Separator::Is('.')).last()
}

/// The content type for a file name.
pub open spec fn type_of_file(filename: Seq<char>) -> Seq<char> {
    type_of(text::str_lowercase(extension(filename)))
}

/// Guesses the content type of a file from its name.
pub fn guess_type(filename: &str) -> (r: String)
    ensures
        r@ == type_of_file(filename@),
        text::is_ascii(extension(filename@)) ==> r@ == type_of(
            extension(filename@).map_values(|c: char| text::lower(c)),
        ),
{
    let parts = text::split(filename, Separator::Is('.'));
    proof {
        text::lemma_split_nonempty(filename@, Separator::Is('.'));
    }
    let last = &parts[parts.len() - 1];
    assert(last@ == extension(filename@));
    let ext = text::to_lowercase(last.as_str());
    type_for_extension(ext.as_str())
}

// ---- identifiers and keys -------------------------------------------------------

/// The identifier of the `n`th item of this process, made at a given time.
pub open spec fn id_of(now: i64, n: u64) -> Seq<char> {
    "itm-"@ + text::dec(now as int) + ("-"@ + text::dec(n as int))
}

/// The identifier of the `n`th item of this process, made at a given time.
pub fn new_id(now: i64, n: u64) -> (r: String)
    ensures
        r@ == id_of(now, n),
{
    let t = text::format_i64(now);
    let c = text::format_u64(n);
    let tail = text::cat2("-", c.as_str());
    text::cat3("itm-", t.as_str(), tail.as_str())
}

/// Items that are made at different times, or by different counts, have different
/// identifiers.
pub proof fn law_identifiers_differ(t: i64, n: u64, u: i64, m: u64)
    requires
        id_of(t, n) == id_of(u, m),
    ensures
        t == u,
        n == m,
{
    reveal_strlit("itm-");
    reveal_strlit("-");
    let a = id_of(t, n);
    let b = id_of(u, m);
    let p = text::dec(t as int);
    let q = text::dec(u as int);
    let x = text::dec(n as int);
    let y = text::dec(m as int);
    text::lemma_dec_nat(n as nat);
    text::lemma_dec_nat(m as nat);
    assert(a.len() == 4 + p.len() + 1 + x.len());
    assert(b.len() == 4 + q.len() + 1 + y.len());
    if x.len() < y.len() {
        let k = a.len() - x.len() - 1;
        assert(a[k] == '-');
        assert(b[k] == y[y.len() - x.len() - 1]);
        assert(text::is_digit(y[y.len() - x.len() - 1]));
    } else if y.len() < x.len() {
        let k = b.len() - y.len() - 1;
        assert(b[k] == '-');
        assert(a[k] == x[x.len() - y.len() - 1]);
        assert(text::is_digit(x[x.len() - y.len() - 1]));
    }
    assert(a.skip(a.len() - x.len()) =~= x);
    assert(b.skip(b.len() - y.len()) =~= y);
    assert(a.subrange(4, 4 + p.len() as int) =~= p);
    assert(b.subrange(4, 4 + q.len() as int) =~= q);
    text::lemma_dec_injective(t as int, u as int);
    text::lemma_dec_injective(n as int, m as int);
}

/// The object key for the content of an item.
pub open spec fn item_key(hash: Seq<char>) -> Seq<char> {
    "fp/"@ + hash
}

fn key_for_item(hash: &str) -> (r: String)
    ensures
        r@ == item_key(hash@),
{
    text::cat2("fp/", hash)
}

/// The content of an item that may be missing.
pub open spec fn item_opt(it: Option<Item>) -> Option<ItemView> {
    match it {
        Some(x) => Some(x@),
        None => None,
    }
}

// ---- creating -------------------------------------------------------------------

/// What a creation is waiting for.
#[derive(Clone, Copy, Debug)]
pub enum CreatePhase {
    /// The store of items.
    Store,
    /// The time for the identifier.
    Id,
    /// The bytes.
    Read,
    /// Whether the content has to be uploaded.
    Head,
    /// The upload.
    Upload,
    /// The time of the change.
    Modified,
    /// The time of the access.
    Accessed,
    /// The item in the store.
    Save,
    /// Nothing more.
    Over,
}

/// An item while it is created. What is not known yet is empty or zero.
pub struct Create {
    phase: CreatePhase,
    cfg: Config,
    nonce: u64,
    parent_id: String,
    filename: String,
    is_folder: bool,
    temp_path: String,
    item_id: String,
    data: Vec<u8>,
    size: i64,
    hash: String,
    modified_at: i64,
    last_access: i64,
}

/// The content of a `Create`.
pub struct CreateView {
    pub phase: CreatePhase,
    pub cfg: ConfigView,
    pub nonce: u64,
    pub parent_id: Seq<char>,
    pub filename: Seq<char>,
    pub is_folder: bool,
    pub temp_path: Seq<char>,
    pub item_id: Seq<char>,
    pub data: Seq<u8>,
    pub size: i64,
    pub hash: Seq<char>,
    pub modified_at: i64,
    pub last_access: i64,
}

impl View for Create {
    type V = CreateView;

    closed spec fn view(&self) -> CreateView {
        CreateView {
            phase: self.phase,
            cfg: self.cfg@,
            nonce: self.nonce,
            parent_id: self.parent_id@,
            filename: self.filename@,
            is_folder: self.is_folder,
            temp_path: self.temp_path@,
            item_id: self.item_id@,
            data: self.data@,
            size: self.size,
            hash: self.hash@,
            modified_at: self.modified_at,
            last_access: self.last_access,
        }
    }
}

impl CreateView {
    /// A creation that has not begun. Without a file to read, the item is a folder.
    pub open spec fn fresh(
        cfg: ConfigView,
        nonce: u64,
        parent_id: Seq<char>,
        filename: Seq<char>,
        is_folder: bool,
        temp_path: Seq<char>,
    ) -> CreateView {
        CreateView {
            phase: CreatePhase::Store,
            cfg,
            nonce,
            parent_id,
            filename,
            is_folder: is_folder || temp_path.len() == 0,
            temp_path,
            item_id: Seq::empty(),
            data: Seq::empty(),
            size: 0,
            hash: Seq::empty(),
            modified_at: 0,
            last_access: 0,
        }
    }

    /// The new item.
    pub open spec fn item(self) -> ItemView {
        ItemView {
            item_id: self.item_id,
            parent_id: self.parent_id,
            filename: self.filename,
            is_folder: self.is_folder,
            size: self.size,
            content_type: if self.is_folder {
                "public.folder"@
            } else {
                type_of_file(self.filename)
            },
            hash: if self.is_folder {
                None
            } else {
                Some(self.hash)
            },
            s3_key: if self.is_folder {
                None
            } else {
                Some(item_key(self.hash))
            },
            version: 1,
            modified_at: self.modified_at,
            last_access: self.last_access,
            dataless: false,
        }
    }

    /// Asks for an action and waits for what comes of it.
    pub open spec fn ask(self, phase: CreatePhase, a: ActionView) -> (
        CreateView,
        StepView<ItemView>,
    ) {
        (CreateView { phase, ..self }, StepView::Ask(a))
    }

    /// Ends with an outcome.
    pub open spec fn end(self, r: Result<ItemView, Fault>) -> (CreateView, StepView<ItemView>) {
        (CreateView { phase: CreatePhase::Over, ..self }, StepView::End(r))
    }

    /// What a creation does when `reply` comes in.
    pub open spec fn respond(self, reply: ReplyView) -> (CreateView, StepView<ItemView>) {
        match (self.phase, reply) {
            (CreatePhase::Store, ReplyView::Done(r)) => match r {
                Err(e) => self.end(Err(e)),
                Ok(_) => self.ask(CreatePhase::Id, ActionView::Clock),
            },
            (CreatePhase::Id, ReplyView::Time(now)) => {
                let s = CreateView { item_id: id_of(now, self.nonce), ..self };
                if self.is_folder {
                    s.ask(CreatePhase::Modified, ActionView::Clock)
                } else {
                    s.ask(CreatePhase::Read, ActionView::ReadFile { path: self.temp_path })
                }
            },
            (CreatePhase::Read, ReplyView::File(r)) => match r {
                Err(m) => self.end(Err(Fault::Io(self.temp_path + ": "@ + m))),
                Ok(data) => {
                    let hash = hash::blake3_hex(data);
                    CreateView { data, size: data.len() as i64, hash, ..self }.ask(
                        CreatePhase::Head,
                        ActionView::HeadObject { at: self.cfg.remote(), key: item_key(hash) },
                    )
                },
            },
            (CreatePhase::Head, ReplyView::Found(r)) => match r {
                Err(e) => self.end(Err(e)),
                Ok(true) => CreateView { data: Seq::empty(), ..self }.ask(
                    CreatePhase::Modified,
                    ActionView::Clock,
                ),
                Ok(false) => CreateView { data: Seq::empty(), ..self }.ask(
                    CreatePhase::Upload,
                    ActionView::StoreObject {
                        at: self.cfg.remote(),
                        key: item_key(self.hash),
                        data: self.data,
                    },
                ),
            },
            (CreatePhase::Upload, ReplyView::Done(r)) => match r {
                Err(e) => self.end(Err(e)),
                Ok(_) => self.ask(CreatePhase::Modified, ActionView::Clock),
            },
            (CreatePhase::Modified, ReplyView::Time(now)) => CreateView {
                modified_at: now,
                ..self
            }.ask(CreatePhase::Accessed, ActionView::Clock),
            (CreatePhase::Accessed, ReplyView::Time(now)) => {
                let s = CreateView { last_access: now, ..self };
                s.ask(CreatePhase::Save, ActionView::SaveItem { item: s.item() })
            },
            (CreatePhase::Save, ReplyView::Done(r)) => match r {
                Err(e) => self.end(Err(e)),
                Ok(_) => self.end(Ok(self.item())),
            },
            _ => self.end(Err(effects::stray())),
        }
    }
}

impl Flow for CreateView {
    type Out = ItemView;

    open spec fn next(self, reply: ReplyView) -> (CreateView, StepView<ItemView>) {
        self.respond(reply)
    }
}

/// Begins to create an item from the file at `temp_path`, or a folder. `nonce` is a
/// number that this process has not used for an item before.
pub fn create(
    cfg: &Config,
    nonce: u64,
    parent_id: &str,
    filename: &str,
    is_folder: bool,
    temp_path: &str,
) -> (r: (Create, Step<Item>))
    ensures
        r.0@ == CreateView::fresh(cfg@, nonce, parent_id@, filename@, is_folder, temp_path@),
        r.1@ == StepView::<ItemView>::Ask(ActionView::OpenStore),
        (r.0@, r.1@) == crate::items::create_start(
            cfg@,
            nonce,
            parent_id@,
            filename@,
            is_folder,
            temp_path@,
        ),
{
    let f = Create {
        phase: CreatePhase::Store,
        cfg: cfg.clone(),
        nonce,
        parent_id: parent_id.to_owned(),
        filename: filename.to_owned(),
        is_folder: is_folder || temp_path.is_empty(),
        temp_path: temp_path.to_owned(),
        item_id: String::new(),
        data: Vec::new(),
        size: 0,
        hash: String::new(),
        modified_at: 0,
        last_access: 0,
    };
    (f, Step::Ask(Action::OpenStore))
}

impl Create {
    fn ask(&mut self, phase: CreatePhase, a: Action) -> (r: Step<Item>)
        ensures
            (final(self)@, r@) == old(self)@.ask(phase, a@),
    {
        self.phase = phase;
        Step::Ask(a)
    }

    fn fail(&mut self, e: StowError) -> (r: Step<Item>)
        ensures
            (final(self)@, r@) == old(self)@.end(Err(e@)),
    {
        self.phase = CreatePhase::Over;
        Step::End(Err(e))
    }

    fn item(&self) -> (r: Item)
        ensures
            r@ == self@.item(),
    {
        let (content_type, hash, s3_key) = if self.is_folder {
            ("public.folder".to_owned(), None, None)
        } else {
            (
                guess_type(self.filename.as_str()),
                Some(self.hash.clone()),
                Some(key_for_item(self.hash.as_str())),
            )
        };
        Item {
            item_id: self.item_id.clone(),
            parent_id: self.parent_id.clone(),
            filename: self.filename.clone(),
            is_folder: self.is_folder,
            size: self.size,
            content_type,
            hash,
            s3_key,
            version: 1,
            modified_at: self.modified_at,
            last_access: self.last_access,
            dataless: false,
        }
    }

    fn read(&mut self, data: Vec<u8>) -> (r: Step<Item>)
        requires
            old(self)@.phase is Read,
        ensures
            (final(self)@, r@) == old(self)@.respond(ReplyView::File(Ok(data@))),
    {
        self.size = data.len() as i64;
        self.hash = hash::content_hash(data.as_slice());
        self.data = data;
        let key = key_for_item(self.hash.as_str());
        let a = Action::HeadObject { at: self.cfg.remote(), key };
        self.ask(CreatePhase::Head, a)
    }

    fn upload(&mut self, found: bool) -> (r: Step<Item>)
        requires
            old(self)@.phase is Head,
        ensures
            (final(self)@, r@) == old(self)@.respond(ReplyView::Found(Ok(found))),
    {
        let mut data: Vec<u8> = Vec::new();
        std::mem::swap(&mut data, &mut self.data);
        assert(self@ =~= (CreateView { data: Seq::empty(), ..old(self)@ }));
        if found {
            self.ask(CreatePhase::Modified, Action::Clock)
        } else {
            let key = key_for_item(self.hash.as_str());
            let a = Action::StoreObject { at: self.cfg.remote(), key, data };
            self.ask(CreatePhase::Upload, a)
        }
    }

    /// Takes what came of the action that was asked for, and says what is next.
    #[verifier::spinoff_prover]
    #[verifier::rlimit(40)]
    pub fn step(&mut self, reply: Reply) -> (r: Step<Item>)
        ensures
            (final(self)@, r@) == old(self)@.respond(reply@),
    {
        match (self.phase, reply) {
            (CreatePhase::Store, Reply::Done(done)) => match done {
                Err(e) => self.fail(e),
                Ok(_) => self.ask(CreatePhase::Id, Action::Clock),
            },
            (CreatePhase::Id, Reply::Time(now)) => {
                self.item_id = new_id(now, self.nonce);
                if self.is_folder {
                    self.ask(CreatePhase::Modified, Action::Clock)
                } else {
                    let a = Action::ReadFile { path: self.temp_path.clone() };
                    self.ask(CreatePhase::Read, a)
                }
            },
            (CreatePhase::Read, Reply::File(read)) => match read {
                Err(m) => {
                    let m = text::cat3(self.temp_path.as_str(), ": ", m.as_str());
                    self.fail(StowError::Io(m))
                },
                Ok(data) => self.read(data),
            },
            (CreatePhase::Head, Reply::Found(found)) => match found {
                Err(e) => self.fail(e),
                Ok(there) => self.upload(there),
            },
            (CreatePhase::Upload, Reply::Done(done)) => match done {
                Err(e) => self.fail(e),
                Ok(_) => self.ask(CreatePhase::Modified, Action::Clock),
            },
            (CreatePhase::Modified, Reply::Time(now)) => {
                self.modified_at = now;
                self.ask(CreatePhase::Accessed, Action::Clock)
            },
            (CreatePhase::Accessed, Reply::Time(now)) => {
                self.last_access = now;
                let a = Action::SaveItem { item: self.item() };
                self.ask(CreatePhase::Save, a)
            },
            (CreatePhase::Save, Reply::Done(done)) => match done {
                Err(e) => self.fail(e),
                Ok(_) => {
                    let item = self.item();
                    self.phase = CreatePhase::Over;
                    Step::End(Ok(item))
                },
            },
            _ => self.fail(effects::stray_reply()),
        }
    }
}

// ---- changing the content -------------------------------------------------------

/// What a change is waiting for.
#[derive(Clone, Copy, Debug)]
pub enum UpdatePhase {
    /// The item.
    Item,
    /// The new bytes.
    Read,
    /// Whether the content has to be uploaded.
    Head,
    /// The upload.
    Upload,
    /// The time of the change.
    Modified,
    /// The time of the access.
    Accessed,
    /// The item in the store.
    Save,
    /// Nothing more.
    Over,
}

/// An item while its content is changed. What is not known yet is empty or zero.
pub struct Update {
    phase: UpdatePhase,
    cfg: Config,
    temp_path: String,
    item_id: String,
    item: Option<Item>,
    data: Vec<u8>,
    size: i64,
    hash: String,
    modified_at: i64,
}

/// The content of an `Update`.
pub struct UpdateView {
    pub phase: UpdatePhase,
    pub cfg: ConfigView,
    pub temp_path: Seq<char>,
    pub item_id: Seq<char>,
    pub item: Option<ItemView>,
    pub data: Seq<u8>,
    pub size: i64,
    pub hash: Seq<char>,
    pub modified_at: i64,
}

impl View for Update {
    type V = UpdateView;

    closed spec fn view(&self) -> UpdateView {
        UpdateView {
            phase: self.phase,
            cfg: self.cfg@,
            temp_path: self.temp_path@,
            item_id: self.item_id@,
            item: item_opt(self.item),
            data: self.data@,
            size: self.size,
            hash: self.hash@,
            modified_at: self.modified_at,
        }
    }
}

/// An item after its content was changed.
pub open spec fn changed(
    item: ItemView,
    size: i64,
    hash: Seq<char>,
    modified_at: i64,
    last_access: i64,
) -> ItemView {
    ItemView {
        size,
        hash: Some(hash),
        s3_key: Some(item_key(hash)),
        version: (item.version + 1) as i64,
        modified_at,
        last_access,
        dataless: false,
        ..item
    }
}

impl UpdateView {
    /// A change that has not begun.
    pub open spec fn fresh(cfg: ConfigView, item_id: Seq<char>, temp_path: Seq<char>) -> UpdateView {
        UpdateView {
            phase: UpdatePhase::Item,
            cfg,
            temp_path,
            item_id,
            item: None,
            data: Seq::empty(),
            size: 0,
            hash: Seq::empty(),
            modified_at: 0,
        }
    }

    /// The item, once it was found, has a version that can grow.
    pub open spec fn wf(self) -> bool {
        match self.item {
            Some(it) => it.version < i64::MAX || self.phase is Save || self.phase is Over,
            None => self.phase is Item || self.phase is Over,
        }
    }

    /// Asks for an action and waits for what comes of it.
    pub open spec fn ask(self, phase: UpdatePhase, a: ActionView) -> (
        UpdateView,
        StepView<ItemView>,
    ) {
        (UpdateView { phase, ..self }, StepView::Ask(a))
    }

    /// Ends with an outcome.
    pub open spec fn end(self, r: Result<ItemView, Fault>) -> (UpdateView, StepView<ItemView>) {
        (UpdateView { phase: UpdatePhase::Over, ..self }, StepView::End(r))
    }

    /// What a change does when `reply` comes in.
    pub open spec fn respond(self, reply: ReplyView) -> (UpdateView, StepView<ItemView>) {
        match (self.phase, reply) {
            (UpdatePhase::Item, ReplyView::Item(r)) => match r {
                Err(e) => self.end(Err(e)),
                Ok(None) => self.end(Err(Fault::NotFound(self.item_id))),
                Ok(Some(item)) => UpdateView { item: Some(item), ..self }.ask(
                    UpdatePhase::Read,
                    ActionView::ReadFile { path: self.temp_path },
                ),
            },
            (UpdatePhase::Read, ReplyView::File(r)) => match r {
                Err(m) => self.end(Err(Fault::Io(self.temp_path + ": "@ + m))),
                Ok(data) => {
                    let hash = hash::blake3_hex(data);
                    UpdateView { data, size: data.len() as i64, hash, ..self }.ask(
                        UpdatePhase::Head,
                        ActionView::HeadObject { at: self.cfg.remote(), key: item_key(hash) },
                    )
                },
            },
            (UpdatePhase::Head, ReplyView::Found(r)) => match r {
                Err(e) => self.end(Err(e)),
                Ok(true) => UpdateView { data: Seq::empty(), ..self }.ask(
                    UpdatePhase::Modified,
                    ActionView::Clock,
                ),
                Ok(false) => UpdateView { data: Seq::empty(), ..self }.ask(
                    UpdatePhase::Upload,
                    ActionView::StoreObject {
                        at: self.cfg.remote(),
                        key: item_key(self.hash),
                        data: self.data,
                    },
                ),
            },
            (UpdatePhase::Upload, ReplyView::Done(r)) => match r {
                Err(e) => self.end(Err(e)),
                Ok(_) => self.ask(UpdatePhase::Modified, ActionView::Clock),
            },
            (UpdatePhase::Modified, ReplyView::Time(now)) => UpdateView {
                modified_at: now,
                ..self
            }.ask(UpdatePhase::Accessed, ActionView::Clock),
            (UpdatePhase::Accessed, ReplyView::Time(now)) => match self.item {
                Some(it) => {
                    let item = changed(it, self.size, self.hash, self.modified_at, now);
                    UpdateView { item: Some(item), ..self }.ask(
                        UpdatePhase::Save,
                        ActionView::SaveItem { item },
                    )
                },
                None => self.end(Err(effects::stray())),
            },
            (UpdatePhase::Save, ReplyView::Done(r)) => match (r, self.item) {
                (Err(e), _) => self.end(Err(e)),
                (Ok(_), Some(item)) => self.end(Ok(item)),
                (Ok(_), None) => self.end(Err(effects::stray())),
            },
            _ => self.end(Err(effects::stray())),
        }
    }
}

impl Flow for UpdateView {
    type Out = ItemView;

    open spec fn next(self, reply: ReplyView) -> (UpdateView, StepView<ItemView>) {
        self.respond(reply)
    }
}

/// Begins to replace the content of an item by that of the file at `temp_path`.
pub fn update_contents(cfg: &Config, item_id: &str, temp_path: &str) -> (r: (Update, Step<Item>))
    ensures
        r.0@ == UpdateView::fresh(cfg@, item_id@, temp_path@),
        r.0@.wf(),
        r.1@ == StepView::<ItemView>::Ask(ActionView::LoadItem { item_id: item_id@ }),
        (r.0@, r.1@) == crate::laws::update_start(cfg@, item_id@, temp_path@),
{
    let f = Update {
        phase: UpdatePhase::Item,
        cfg: cfg.clone(),
        temp_path: temp_path.to_owned(),
        item_id: item_id.to_owned(),
        item: None,
        data: Vec::new(),
        size: 0,
        hash: String::new(),
        modified_at: 0,
    };
    (f, Step::Ask(Action::LoadItem { item_id: item_id.to_owned() }))
}

/// Whether a reply brings an item whose version cannot grow.
pub open spec fn brings_last_version(reply: ReplyView) -> bool {
    reply matches ReplyView::Item(Ok(Some(it))) && it.version == i64::MAX
}

/// Tells whether a reply brings an item whose version cannot grow.
pub fn has_last_version(reply: &Reply) -> (r: bool)
    ensures
        r == brings_last_version(reply@),
{
    match reply {
        Reply::Item(Ok(Some(it))) => it.version == i64::MAX,
        _ => false,
    }
}

impl Update {
    fn ask(&mut self, phase: UpdatePhase, a: Action) -> (r: Step<Item>)
        ensures
            (final(self)@, r@) == old(self)@.ask(phase, a@),
    {
        self.phase = phase;
        Step::Ask(a)
    }

    fn fail(&mut self, e: StowError) -> (r: Step<Item>)
        ensures
            (final(self)@, r@) == old(self)@.end(Err(e@)),
    {
        self.phase = UpdatePhase::Over;
        Step::End(Err(e))
    }

    fn read(&mut self, data: Vec<u8>) -> (r: Step<Item>)
        requires
            old(self)@.phase is Read,
        ensures
            (final(self)@, r@) == old(self)@.respond(ReplyView::File(Ok(data@))),
    {
        self.size = data.len() as i64;
        self.hash = hash::content_hash(data.as_slice());
        self.data = data;
        let key = key_for_item(self.hash.as_str());
        let a = Action::HeadObject { at: self.cfg.remote(), key };
        self.ask(UpdatePhase::Head, a)
    }

    fn upload(&mut self, found: bool) -> (r: Step<Item>)
        requires
            old(self)@.phase is Head,
        ensures
            (final(self)@, r@) == old(self)@.respond(ReplyView::Found(Ok(found))),
    {
        let mut data: Vec<u8> = Vec::new();
        std::mem::swap(&mut data, &mut self.data);
        assert(self@ =~= (UpdateView { data: Seq::empty(), ..old(self)@ }));
        if found {
            self.ask(UpdatePhase::Modified, Action::Clock)
        } else {
            let key = key_for_item(self.hash.as_str());
            let a = Action::StoreObject { at: self.cfg.remote(), key, data };
            self.ask(UpdatePhase::Upload, a)
        }
    }

    fn save(&mut self, now: i64) -> (r: Step<Item>)
        requires
            old(self)@.phase is Accessed,
            old(self)@.wf(),
        ensures
            (final(self)@, r@) == old(self)@.respond(ReplyView::Time(now)),
    {
        match &self.item {
            Some(it) => {
                let mut item = it.clone();
                item.size = self.size;
                item.hash = Some(self.hash.clone());
                item.s3_key = Some(key_for_item(self.hash.as_str()));
                item.version = item.version + 1;
                item.modified_at = self.modified_at;
                item.last_access = now;
                item.dataless = false;
                self.item = Some(item.clone());
                self.ask(UpdatePhase::Save, Action::SaveItem { item })
            },
            None => self.fail(effects::stray_reply()),
        }
    }

    /// Takes what came of the action that was asked for, and says what is next.
    #[verifier::spinoff_prover]
    #[verifier::rlimit(40)]
    pub fn step(&mut self, reply: Reply) -> (r: Step<Item>)
        requires
            old(self)@.wf(),
            !brings_last_version(reply@),
        ensures
            (final(self)@, r@) == old(self)@.respond(reply@),
            final(self)@.wf(),
    {
        match (self.phase, reply) {
            (UpdatePhase::Item, Reply::Item(found)) => match found {
                Err(e) => self.fail(e),
                Ok(None) => {
                    let id = self.item_id.clone();
                    self.fail(StowError::NotFound(id))
                },
                Ok(Some(item)) => {
                    self.item = Some(item);
                    let a = Action::ReadFile { path: self.temp_path.clone() };
                    self.ask(UpdatePhase::Read, a)
                },
            },
            (UpdatePhase::Read, Reply::File(read)) => match read {
                Err(m) => {
                    let m = text::cat3(self.temp_path.as_str(), ": ", m.as_str());
                    self.fail(StowError::Io(m))
                },
                Ok(data) => self.read(data),
            },
            (UpdatePhase::Head, Reply::Found(found)) => match found {
                Err(e) => self.fail(e),
                Ok(there) => self.upload(there),
            },
            (UpdatePhase::Upload, Reply::Done(done)) => match done {
                Err(e) => self.fail(e),
                Ok(_) => self.ask(UpdatePhase::Modified, Action::Clock),
            },
            (UpdatePhase::Modified, Reply::Time(now)) => {
                self.modified_at = now;
                self.ask(UpdatePhase::Accessed, Action::Clock)
            },
            (UpdatePhase::Accessed, Reply::Time(now)) => self.save(now),
            (UpdatePhase::Save, Reply::Done(done)) => {
                self.phase = UpdatePhase::Over;
                match done {
                    Err(e) => Step::End(Err(e)),
                    Ok(_) => match &self.item {
                        Some(item) => Step::End(Ok(item.clone())),
                        None => Step::End(Err(effects::stray_reply())),
                    },
                }
            },
            _ => self.fail(effects::stray_reply()),
        }
    }
}

// ---- reading the content --------------------------------------------------------

/// What a fetch is waiting for.
#[derive(Clone, Copy, Debug)]
pub enum FetchPhase {
    /// The item.
    Item,
    /// The content.
    Object,
    /// The bytes in their place.
    Write,
    /// The note that the bytes are here.
    Dataless,
    /// The time.
    Time,
    /// The note of the access.
    Touch,
    /// Nothing more.
    Over,
}

/// An item while its content is fetched.
pub struct Fetch {
    phase: FetchPhase,
    cfg: Config,
    item_id: String,
    out_path: String,
    item: Option<Item>,
}

/// The content of a `Fetch`.
pub struct FetchView {
    pub phase: FetchPhase,
    pub cfg: ConfigView,
    pub item_id: Seq<char>,
    pub out_path: Seq<char>,
    pub item: Option<ItemView>,
}

impl View for Fetch {
    type V = FetchView;

    closed spec fn view(&self) -> FetchView {
        FetchView {
            phase: self.phase,
            cfg: self.cfg@,
            item_id: self.item_id@,
            out_path: self.out_path@,
            item: item_opt(self.item),
        }
    }
}

impl FetchView {
    /// A fetch that has not begun.
    pub open spec fn fresh(cfg: ConfigView, item_id: Seq<char>, out_path: Seq<char>) -> FetchView {
        FetchView { phase: FetchPhase::Item, cfg, item_id, out_path, item: None }
    }

    /// Asks for an action and waits for what comes of it.
    pub open spec fn ask(self, phase: FetchPhase, a: ActionView) -> (
        FetchView,
        StepView<ItemView>,
    ) {
        (FetchView { phase, ..self }, StepView::Ask(a))
    }

    /// Ends with an outcome.
    pub open spec fn end(self, r: Result<ItemView, Fault>) -> (FetchView, StepView<ItemView>) {
        (FetchView { phase: FetchPhase::Over, ..self }, StepView::End(r))
    }

    /// Whether bytes are the content of the item: its hash is theirs, where it has one.
    pub open spec fn vouches_for(self, data: Seq<u8>) -> bool {
        self.item matches Some(it) && (it.hash matches Some(h) ==> hash::blake3_hex(data) == h)
    }

    /// What a fetch does when `reply` comes in.
    pub open spec fn respond(self, reply: ReplyView) -> (FetchView, StepView<ItemView>) {
        match (self.phase, reply) {
            (FetchPhase::Item, ReplyView::Item(r)) => match r {
                Err(e) => self.end(Err(e)),
                Ok(None) => self.end(Err(Fault::NotFound(self.item_id))),
                Ok(Some(item)) => match item.s3_key {
                    None => self.end(
                        Err(Fault::NotFound(self.item_id + " has no s3 object"@)),
                    ),
                    Some(key) => FetchView { item: Some(item), ..self }.ask(
                        FetchPhase::Object,
                        ActionView::GetObject { at: self.cfg.remote(), key },
                    ),
                },
            },
            (FetchPhase::Object, ReplyView::Object(r)) => match r {
                Err(e) => self.end(Err(e)),
                Ok(data) => if self.vouches_for(data) {
                    self.ask(
                        FetchPhase::Write,
                        ActionView::WriteFile { path: self.out_path, data },
                    )
                } else {
                    self.end(Err(Fault::Integrity(self.item_id + ": hash mismatch"@)))
                },
            },
            (FetchPhase::Write, ReplyView::Wrote(r)) => match r {
                Err(m) => self.end(Err(Fault::Io(m))),
                Ok(_) => self.ask(
                    FetchPhase::Dataless,
                    ActionView::SetDataless { item_id: self.item_id, dataless: false },
                ),
            },
            (FetchPhase::Dataless, ReplyView::Done(r)) => match r {
                Err(e) => self.end(Err(e)),
                Ok(_) => self.ask(FetchPhase::Time, ActionView::Clock),
            },
            (FetchPhase::Time, ReplyView::Time(now)) => self.ask(
                FetchPhase::Touch,
                ActionView::TouchAccess { item_id: self.item_id, ts: now },
            ),
            (FetchPhase::Touch, ReplyView::Done(r)) => match (r, self.item) {
                (Err(e), _) => self.end(Err(e)),
                (Ok(_), Some(item)) => self.end(Ok(item)),
                (Ok(_), None) => self.end(Err(effects::stray())),
            },
            _ => self.end(Err(effects::stray())),
        }
    }
}

impl Flow for FetchView {
    type Out = ItemView;

    open spec fn next(self, reply: ReplyView) -> (FetchView, StepView<ItemView>) {
        self.respond(reply)
    }
}

/// Begins to bring the content of an item to `out_path`.
pub fn fetch(cfg: &Config, item_id: &str, out_path: &str) -> (r: (Fetch, Step<Item>))
    ensures
        r.0@ == FetchView::fresh(cfg@, item_id@, out_path@),
        r.1@ == StepView::<ItemView>::Ask(ActionView::LoadItem { item_id: item_id@ }),
        (r.0@, r.1@) == crate::laws::fetch_start(cfg@, item_id@, out_path@),
{
    let f = Fetch {
        phase: FetchPhase::Item,
        cfg: cfg.clone(),
        item_id: item_id.to_owned(),
        out_path: out_path.to_owned(),
        item: None,
    };
    (f, Step::Ask(Action::LoadItem { item_id: item_id.to_owned() }))
}

impl Fetch {
    fn ask(&mut self, phase: FetchPhase, a: Action) -> (r: Step<Item>)
        ensures
            (final(self)@, r@) == old(self)@.ask(phase, a@),
    {
        self.phase = phase;
        Step::Ask(a)
    }

    fn fail(&mut self, e: StowError) -> (r: Step<Item>)
        ensures
            (final(self)@, r@) == old(self)@.end(Err(e@)),
    {
        self.phase = FetchPhase::Over;
        Step::End(Err(e))
    }

    fn vouches_for(&self, data: &Vec<u8>) -> (r: bool)
        ensures
            r == self@.vouches_for(data@),
    {
        match &self.item {
            None => false,
            Some(it) => match &it.hash {
                None => true,
                Some(h) => {
                    let got = hash::content_hash(data.as_slice());
                    text::same(got.as_str(), h.as_str())
                },
            },
        }
    }

    fn found(&mut self, item: Item) -> (r: Step<Item>)
        requires
            old(self)@.phase is Item,
        ensures
            (final(self)@, r@) == old(self)@.respond(ReplyView::Item(Ok(Some(item@)))),
    {
        match item.s3_key.clone() {
            None => {
                let m = text::cat2(self.item_id.as_str(), " has no s3 object");
                self.fail(StowError::NotFound(m))
            },
            Some(key) => {
                self.item = Some(item);
                let a = Action::GetObject { at: self.cfg.remote(), key };
                self.ask(FetchPhase::Object, a)
            },
        }
    }

    /// Takes what came of the action that was asked for, and says what is next.
    #[verifier::spinoff_prover]
    #[verifier::rlimit(40)]
    pub fn step(&mut self, reply: Reply) -> (r: Step<Item>)
        ensures
            (final(self)@, r@) == old(self)@.respond(reply@),
    {
        match (self.phase, reply) {
            (FetchPhase::Item, Reply::Item(found)) => match found {
                Err(e) => self.fail(e),
                Ok(None) => {
                    let id = self.item_id.clone();
                    self.fail(StowError::NotFound(id))
                },
                Ok(Some(item)) => self.found(item),
            },
            (FetchPhase::Object, Reply::Object(got)) => match got {
                Err(e) => self.fail(e),
                Ok(data) => if self.vouches_for(&data) {
                    let a = Action::WriteFile { path: self.out_path.clone(), data };
                    self.ask(FetchPhase::Write, a)
                } else {
                    let m = text::cat2(self.item_id.as_str(), ": hash mismatch");
                    self.fail(StowError::Integrity(m))
                },
            },
            (FetchPhase::Write, Reply::Wrote(done)) => match done {
                Err(m) => self.fail(StowError::Io(m)),
                Ok(_) => {
                    let a = Action::SetDataless {
                        item_id: self.item_id.clone(),
                        dataless: false,
                    };
                    self.ask(FetchPhase::Dataless, a)
                },
            },
            (FetchPhase::Dataless, Reply::Done(done)) => match done {
                Err(e) => self.fail(e),
                Ok(_) => self.ask(FetchPhase::Time, Action::Clock),
            },
            (FetchPhase::Time, Reply::Time(now)) => {
                let a = Action::TouchAccess { item_id: self.item_id.clone(), ts: now };
                self.ask(FetchPhase::Touch, a)
            },
            (FetchPhase::Touch, Reply::Done(done)) => {
                self.phase = FetchPhase::Over;
                match done {
                    Err(e) => Step::End(Err(e)),
                    Ok(_) => match &self.item {
                        Some(item) => Step::End(Ok(item.clone())),
                        None => Step::End(Err(effects::stray_reply())),
                    },
                }
            },
            _ => self.fail(effects::stray_reply()),
        }
    }
}

} // verus!

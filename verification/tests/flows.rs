use std::collections::HashMap;

use stow_core::archive::{zip_dir, Walked};
use stow_core::config::{Config, Policy};
use stow_core::effects::{Action, LinkKind, Meta, Reply, Step};
use stow_core::error::{StowError, StowResult};
use stow_core::folder::{create, fetch, has_last_version, update_contents};
use stow_core::index::{Index, Record, ShareRow};
use stow_core::init::{init, init_with, InitResult};
use stow_core::migrate::{migrate, MigrateResult};
use stow_core::offload::{offload, OffloadResult, MAX_TRIES};
use stow_core::placeholder::{frame_placeholder, Probe};
use stow_core::provider::{Item, Store, ROOT};
use stow_core::restore::{restore, RestoreResult};
use stow_core::share::{share, unshare, ShareResult};

const INPLACE: &str = ".stow-inplace";

#[derive(Clone, Debug, PartialEq)]
enum Node {
    File { bytes: Vec<u8>, mode: u32, mtime: i64, atime: i64 },
    Link { target: String },
}

/// A host that keeps everything in memory.
struct Host {
    files: HashMap<String, Node>,
    dirs: HashMap<String, Vec<Walked>>,
    objects: HashMap<(String, String), Vec<u8>>,
    index: Index,
    store: Store,
    config: Option<Config>,
    clock: i64,
    mount: Option<String>,
    appears_after: u32,
    looks: u32,
    bucket_exists: bool,
    create_reply: Result<(), String>,
    location: Option<Option<String>>,
    signals: u32,
    public: bool,
    uploads: u32,
    fail_on: &'static str,
    log: Vec<&'static str>,
}

fn broken() -> StowError {
    StowError::Io("broken".to_string())
}

impl Host {
    fn new() -> Host {
        Host {
            files: HashMap::new(),
            dirs: HashMap::new(),
            objects: HashMap::new(),
            index: Index::open(Vec::new(), Vec::new()).unwrap(),
            store: Store::open(Vec::new()).unwrap(),
            config: None,
            clock: 1000,
            mount: None,
            appears_after: 0,
            looks: 0,
            bucket_exists: false,
            create_reply: Ok(()),
            location: None,
            signals: 0,
            public: false,
            uploads: 0,
            fail_on: "",
            log: Vec::new(),
        }
    }

    fn put_file(&mut self, path: &str, bytes: &[u8], mode: u32, mtime: i64) {
        let node = Node::File { bytes: bytes.to_vec(), mode, mtime, atime: 0 };
        self.files.insert(path.to_string(), node);
    }

    fn done(&self, what: &str) -> Reply {
        if self.fail_on == what {
            Reply::Done(Err(broken()))
        } else {
            Reply::Done(Ok(()))
        }
    }

    fn wrote(&self, what: &str) -> Reply {
        if self.fail_on == what {
            Reply::Wrote(Err("broken".to_string()))
        } else {
            Reply::Wrote(Ok(()))
        }
    }

    fn perform(&mut self, a: Action) -> Reply {
        match a {
            Action::SaveConfig { cfg } => {
                self.log.push("save config");
                let r = self.done("save config");
                if matches!(r, Reply::Done(Ok(()))) {
                    self.config = Some(cfg);
                }
                r
            }
            Action::OpenIndex => self.done("open index"),
            Action::OpenStore => self.done("open store"),
            Action::StatFile { path } => match self.files.get(&path) {
                Some(Node::File { .. }) => Reply::Kind(Ok(true)),
                Some(_) => Reply::Kind(Ok(false)),
                None => Reply::Kind(Err("no such file".to_string())),
            },
            Action::StatNode { path } => {
                if self.dirs.contains_key(&path) {
                    Reply::Kind(Ok(true))
                } else if self.files.contains_key(&path) {
                    Reply::Kind(Ok(false))
                } else {
                    Reply::Kind(Err("no such file".to_string()))
                }
            }
            Action::Probe { path } => {
                let p = match self.files.get(&path) {
                    Some(Node::Link { target }) => Probe::Link(Some(target.clone())),
                    Some(Node::File { bytes, .. }) => Probe::File {
                        len: bytes.len() as u64,
                        head: if self.fail_on == "probe" {
                            Err("broken".to_string())
                        } else {
                            Ok(bytes.iter().take(6).cloned().collect())
                        },
                    },
                    None => Probe::Nothing,
                };
                Reply::Probed(p)
            }
            Action::LinkKind { path } => Reply::Link(match self.files.get(&path) {
                Some(Node::Link { .. }) => LinkKind::Link,
                Some(Node::File { .. }) => LinkKind::Other,
                None => LinkKind::Missing,
            }),
            Action::StatMeta { path } => match self.files.get(&path) {
                Some(Node::File { bytes, mode, mtime, .. }) if self.fail_on != "meta" => {
                    Reply::Meta(Ok(Meta {
                        size: bytes.len() as i64,
                        mode: *mode,
                        mtime: *mtime,
                    }))
                }
                _ => Reply::Meta(Err("broken".to_string())),
            },
            Action::ReadFile { path } => match self.files.get(&path) {
                Some(Node::File { bytes, .. }) if self.fail_on != "read" => {
                    Reply::File(Ok(bytes.clone()))
                }
                _ => Reply::File(Err("cannot read".to_string())),
            },
            Action::WriteFile { path, data } => {
                self.log.push("write");
                let r = self.wrote("write");
                if matches!(r, Reply::Wrote(Ok(()))) {
                    let mode = match self.files.get(&path) {
                        Some(Node::File { mode, .. }) => *mode,
                        _ => 0o644,
                    };
                    let now = self.clock;
                    self.files.insert(path, Node::File { bytes: data, mode, mtime: now, atime: now });
                }
                r
            }
            Action::RemoveFile { path } => {
                self.log.push("remove");
                let r = self.wrote("remove");
                if matches!(r, Reply::Wrote(Ok(()))) {
                    self.files.remove(&path);
                }
                r
            }
            Action::MakeLink { target, path } => {
                self.log.push("link");
                if self.files.contains_key(&path) {
                    return Reply::Wrote(Err("file exists".to_string()));
                }
                let r = self.wrote("link");
                if matches!(r, Reply::Wrote(Ok(()))) {
                    let target = String::from_utf8(target).unwrap();
                    self.files.insert(path, Node::Link { target });
                }
                r
            }
            Action::Rename { from, to } => {
                self.log.push("rename");
                let r = self.wrote("rename");
                if matches!(r, Reply::Wrote(Ok(()))) {
                    let node = self.files.remove(&from).unwrap();
                    self.files.insert(to, node);
                }
                r
            }
            Action::SetMode { path, mode: m } => {
                if let Some(Node::File { mode, .. }) = self.files.get_mut(&path) {
                    *mode = m;
                }
                self.wrote("mode")
            }
            Action::SetTimes { path, atime: at, mtime: mt } => {
                if let Some(Node::File { atime, mtime, .. }) = self.files.get_mut(&path) {
                    *atime = at;
                    *mtime = mt;
                }
                self.wrote("times")
            }
            Action::LookFor { .. } => {
                self.looks += 1;
                Reply::Seen(self.looks > self.appears_after)
            }
            Action::Sleep { millis } => {
                assert_eq!(millis, 200);
                Reply::Ready
            }
            Action::ZipTree { path } => {
                Reply::Zipped(zip_dir(self.dirs.get(&path).unwrap(), INPLACE))
            }
            Action::HeadObject { at, key } => {
                if self.fail_on == "head" {
                    return Reply::Found(Err(broken()));
                }
                Reply::Found(Ok(self.objects.contains_key(&(at.bucket, key))))
            }
            Action::StoreObject { at, key, data } => {
                self.log.push("upload");
                let r = self.done("upload");
                if matches!(r, Reply::Done(Ok(()))) {
                    self.uploads += 1;
                    self.objects.insert((at.bucket, key), data);
                }
                r
            }
            Action::CopyObject { at, from, key } => {
                let data = self.objects.get(&(at.bucket.clone(), from)).unwrap().clone();
                self.objects.insert((at.bucket, key), data);
                self.done("copy")
            }
            Action::GetObject { at, key } => match self.objects.get(&(at.bucket, key.clone())) {
                Some(d) => Reply::Object(Ok(d.clone())),
                None => Reply::Object(Err(stow_core::s3::call_failed("get", &key, "missing"))),
            },
            Action::DeleteObject { at, key } => {
                let r = self.done("delete");
                if matches!(r, Reply::Done(Ok(()))) {
                    self.objects.remove(&(at.bucket, key));
                }
                r
            }
            Action::OpenShares { .. } => {
                self.public = true;
                self.done("open shares")
            }
            Action::HeadBucket { .. } => Reply::Found(Ok(self.bucket_exists)),
            Action::CreateBucket { location, .. } => {
                self.location = Some(location);
                Reply::Wrote(self.create_reply.clone())
            }
            Action::AccountId { region } => {
                if self.fail_on == "account" {
                    return Reply::Text(Err(StowError::Network("no account".to_string())));
                }
                assert!(!region.is_empty());
                Reply::Text(Ok("123456789012".to_string()))
            }
            Action::ResolveCreds { .. } => Reply::Creds(Some(stow_core::s3::Creds {
                access_key_id: "AK".to_string(),
                secret_access_key: "SK".to_string(),
                session_token: None,
            })),
            Action::Clock => {
                self.clock += 1;
                Reply::Time(self.clock)
            }
            Action::RandomBytes { count } => {
                assert_eq!(count, 16);
                if self.fail_on == "random" {
                    return Reply::Random(Err("broken".to_string()));
                }
                Reply::Random(Ok((0u8..16).map(|x| x * 16 + 1).collect()))
            }
            Action::LoadRecord { path } => Reply::Record(Ok(self.index.get(&path))),
            Action::SaveRecord { rec } => {
                self.log.push("record");
                let r = self.done("record");
                if matches!(r, Reply::Done(Ok(()))) {
                    self.index.upsert(&rec);
                }
                r
            }
            Action::MarkRestored { path } => {
                self.index.set_restored(&path, true);
                self.done("mark")
            }
            Action::LoadRecords => Reply::Records(Ok(self.index.all())),
            Action::LoadShare { token } => Reply::Share(Ok(self.index.get_share(&token))),
            Action::SaveShare { row } => {
                self.index.add_share(&row);
                self.done("save share")
            }
            Action::ForgetShare { token } => {
                self.index.remove_share(&token);
                self.done("forget")
            }
            Action::LoadItem { item_id } => Reply::Item(Ok(self.store.get(&item_id))),
            Action::LoadItems => Reply::Items(Ok(self.store.children(ROOT))),
            Action::SaveItem { item } => {
                self.store.upsert(&item);
                self.done("save item")
            }
            Action::SetDataless { item_id, dataless } => {
                self.store.set_dataless(&item_id, dataless);
                self.done("dataless")
            }
            Action::TouchAccess { item_id, ts } => {
                self.store.touch_access(&item_id, ts);
                self.done("touch")
            }
            Action::FindMount => Reply::Mount(self.mount.clone().map(|m| m.into_bytes())),
            Action::MirrorItem { rec } => {
                if self.fail_on == "mirror" {
                    return Reply::Text(Err(broken()));
                }
                Reply::Text(Ok(format!("m-{}", rec.path.replace('/', "_"))))
            }
            Action::RemoveMirror { .. } => Reply::Ready,
            Action::Signal => {
                self.signals += 1;
                Reply::Ready
            }
            Action::RenderStub { stub } => {
                if self.fail_on == "render" {
                    return Reply::Text(Err(StowError::Unknown("json".to_string())));
                }
                Reply::Text(Ok(format!("{{\"path\":\"{}\",\"hash\":\"{}\"}}", stub.path, stub.hash)))
            }
        }
    }

    fn offload_with(&mut self, path: &str, fp_down: bool) -> (StowResult<OffloadResult>, bool) {
        let (mut flow, mut step) = offload(path, &config(), INPLACE, fp_down);
        loop {
            match step {
                Step::End(r) => return (r, flow.fp_down()),
                Step::Ask(a) => {
                    let reply = self.perform(a);
                    step = flow.step(reply);
                }
            }
        }
    }

    fn offload(&mut self, path: &str) -> StowResult<OffloadResult> {
        self.offload_with(path, false).0
    }

    fn restore(&mut self, path: &str) -> StowResult<RestoreResult> {
        let (mut flow, mut step) = restore(path, &config());
        loop {
            match step {
                Step::End(r) => return r,
                Step::Ask(a) => {
                    let reply = self.perform(a);
                    step = flow.step(reply);
                }
            }
        }
    }

    fn share(&mut self, path: &str) -> StowResult<ShareResult> {
        let (mut flow, mut step) = share(path, &config(), INPLACE);
        loop {
            match step {
                Step::End(r) => return r,
                Step::Ask(a) => {
                    let reply = self.perform(a);
                    step = flow.step(reply);
                }
            }
        }
    }

    fn unshare(&mut self, token: &str) -> StowResult<ShareRow> {
        let (mut flow, mut step) = unshare(token, &config());
        loop {
            match step {
                Step::End(r) => return r,
                Step::Ask(a) => {
                    let reply = self.perform(a);
                    step = flow.step(reply);
                }
            }
        }
    }

    fn init(&mut self, region: Option<&str>) -> StowResult<InitResult> {
        let (mut flow, mut step) = init(region.map(|r| r.to_string()), None, None);
        loop {
            match step {
                Step::End(r) => return r,
                Step::Ask(a) => {
                    let reply = self.perform(a);
                    step = flow.step(reply);
                }
            }
        }
    }

    fn migrate(&mut self) -> StowResult<MigrateResult> {
        let (mut flow, mut step) = migrate(INPLACE);
        loop {
            match step {
                Step::End(r) => return r,
                Step::Ask(a) => {
                    let reply = self.perform(a);
                    step = flow.step(reply);
                }
            }
        }
    }

    fn create(&mut self, name: &str, is_folder: bool, temp: &str) -> StowResult<Item> {
        let (mut flow, mut step) = create(&config(), 7, ROOT, name, is_folder, temp);
        loop {
            match step {
                Step::End(r) => return r,
                Step::Ask(a) => {
                    let reply = self.perform(a);
                    step = flow.step(reply);
                }
            }
        }
    }

    fn update(&mut self, id: &str, temp: &str) -> StowResult<Item> {
        let (mut flow, mut step) = update_contents(&config(), id, temp);
        loop {
            match step {
                Step::End(r) => return r,
                Step::Ask(a) => {
                    let reply = self.perform(a);
                    assert!(!has_last_version(&reply));
                    step = flow.step(reply);
                }
            }
        }
    }

    fn fetch(&mut self, id: &str, out: &str) -> StowResult<Item> {
        let (mut flow, mut step) = fetch(&config(), id, out);
        loop {
            match step {
                Step::End(r) => return r,
                Step::Ask(a) => {
                    let reply = self.perform(a);
                    step = flow.step(reply);
                }
            }
        }
    }
}

fn config() -> Config {
    Config {
        bucket: "stow-acct".to_string(),
        region: "eu-west-1".to_string(),
        prefix: "objects/".to_string(),
        policy: policy(),
        access_key_id: None,
        secret_access_key: None,
        session_token: None,
    }
}

fn policy() -> Policy {
    Policy {
        min_size_bytes: 1,
        min_age_days: 2,
        roots: vec!["/r".to_string()],
        excludes: Vec::new(),
        include_hidden: false,
    }
}

fn message<T>(r: StowResult<T>) -> (String, i32) {
    match r {
        Ok(_) => panic!("an error was expected"),
        Err(e) => (e.message(), e.status().code()),
    }
}

const ABC_HASH: &str = "6437b3ac38465133ffb63b75273a8db548c558465d79db03fd359c6cd5bd9d85";

#[test]
fn offloading_leaves_a_stub_and_restoring_brings_the_file_back() {
    let mut h = Host::new();
    h.put_file("/u/a.txt", b"abc", 0o600, 77);
    let r = h.offload("/u/a.txt").unwrap();
    assert_eq!(r.path, "/u/a.txt");
    assert_eq!(r.hash, ABC_HASH);
    assert_eq!(r.bytes_freed, 3);
    assert_eq!(r.s3_key, format!("objects/{}", ABC_HASH));
    assert!(!r.deduped);
    assert!(!r.transparent);
    let stub = match h.files.get("/u/a.txt") {
        Some(Node::File { bytes, .. }) => bytes.clone(),
        _ => panic!("no stub"),
    };
    let json = format!("{{\"path\":\"/u/a.txt\",\"hash\":\"{}\"}}", ABC_HASH);
    assert_eq!(stub, frame_placeholder(&json));
    assert!(stub.starts_with(b"STOW1\n"));
    assert_eq!(h.log, vec!["upload", "record", "write"]);
    let rec = h.index.get("/u/a.txt").unwrap();
    assert_eq!(rec.hash, ABC_HASH);
    assert_eq!(rec.mode, 0o600);
    assert_eq!(rec.mtime, 77);
    assert!(!rec.restored);

    let back = h.restore("/u/a.txt").unwrap();
    assert_eq!(back.path, "/u/a.txt");
    assert_eq!(back.bytes_restored, 3);
    let node = h.files.get("/u/a.txt").unwrap().clone();
    assert_eq!(
        node,
        Node::File { bytes: b"abc".to_vec(), mode: 0o600, mtime: 77, atime: h.clock }
    );
    assert!(h.index.get("/u/a.txt").unwrap().restored);
}

#[test]
fn offloading_with_a_mirror_leaves_a_link_and_restoring_removes_it() {
    let mut h = Host::new();
    h.mount = Some("/Users/u/Library/CloudStorage/StowAgent-Stow".to_string());
    h.appears_after = 3;
    h.put_file("/u/b.bin", &[1, 2, 3, 4, 5, 6, 7], 0o644, 5);
    let (r, down) = h.offload_with("/u/b.bin", false);
    let r = r.unwrap();
    assert!(r.transparent);
    assert!(!down);
    assert_eq!(h.looks, 4);
    assert_eq!(h.signals, 1);
    assert_eq!(
        h.files.get("/u/b.bin").unwrap(),
        &Node::Link {
            target: "/Users/u/Library/CloudStorage/StowAgent-Stow/.stow-inplace/m-_u_b.bin".to_string()
        }
    );
    assert_eq!(h.log, vec!["upload", "record", "link", "rename"]);
    assert_eq!(
        message(h.offload("/u/b.bin")).0,
        "invalid argument: /u/b.bin is not a regular file"
    );

    h.restore("/u/b.bin").unwrap();
    assert_eq!(h.signals, 2);
    match h.files.get("/u/b.bin").unwrap() {
        Node::File { bytes, .. } => assert_eq!(bytes, &vec![1u8, 2, 3, 4, 5, 6, 7]),
        _ => panic!("still a link"),
    }
}

#[test]
fn a_silent_mirror_is_given_up_after_fifty_looks() {
    let mut h = Host::new();
    h.mount = Some("/m/Stow".to_string());
    h.appears_after = 1000;
    h.put_file("/u/c", b"contents", 0o644, 5);
    let (r, down) = h.offload_with("/u/c", false);
    assert!(!r.unwrap().transparent);
    assert!(down);
    assert_eq!(h.looks, MAX_TRIES);
    assert_eq!(h.looks, 50);

    h.put_file("/u/d", b"other contents", 0o644, 5);
    let (r, down) = h.offload_with("/u/d", true);
    assert!(!r.unwrap().transparent);
    assert!(down);
    assert_eq!(h.looks, 50);
}

#[test]
fn failures_around_the_mirror_fall_back_to_a_stub() {
    for what in ["mirror", "rename", "link"] {
        let mut h = Host::new();
        h.mount = Some("/m/Stow".to_string());
        h.fail_on = what;
        h.put_file("/u/c", b"contents", 0o644, 5);
        let r = h.offload("/u/c").unwrap();
        assert!(!r.transparent);
        match h.files.get("/u/c").unwrap() {
            Node::File { bytes, .. } => assert!(bytes.starts_with(b"STOW1\n")),
            _ => panic!("no stub"),
        }
        assert_eq!(h.files.len(), 1);
    }
    let mut h = Host::new();
    h.fail_on = "write";
    h.put_file("/u/c", b"contents", 0o644, 5);
    let before = h.files.get("/u/c").unwrap().clone();
    assert_eq!(message(h.offload("/u/c")).0, "io error: broken");
    assert_eq!(h.files.get("/u/c").unwrap(), &before);
}

#[test]
fn names_that_are_taken_stay() {
    let mut h = Host::new();
    h.mount = Some("/m/Stow".to_string());
    h.put_file("/u/.stow-0", b"mine", 0o644, 5);
    h.put_file("/u/c", b"contents", 0o644, 5);
    assert!(h.offload("/u/c").unwrap().transparent);
    assert!(matches!(h.files.get("/u/c").unwrap(), Node::Link { .. }));
    match h.files.get("/u/.stow-0").unwrap() {
        Node::File { bytes, .. } => assert_eq!(bytes, b"mine"),
        _ => panic!("not a file"),
    }
    assert_eq!(h.files.len(), 2);
    for n in 0..1000 {
        h.put_file(&format!("/u/.stow-{n}"), b"mine", 0o644, 5);
    }
    h.put_file("/u/d", b"more contents", 0o644, 5);
    assert!(!h.offload("/u/d").unwrap().transparent);
    let r = h.migrate().unwrap();
    assert_eq!(r.failures[0].path, "/u/d");
    assert_eq!(r.failures[0].error, "there is no free name for a link");
    assert_eq!(h.files.len(), 1002);
}

#[test]
fn equal_content_is_uploaded_once() {
    let mut h = Host::new();
    h.put_file("/u/1", b"same", 0o644, 5);
    h.put_file("/u/2", b"same", 0o644, 5);
    assert!(!h.offload("/u/1").unwrap().deduped);
    assert!(h.offload("/u/2").unwrap().deduped);
    assert_eq!(h.uploads, 1);
    let hash = h.index.get("/u/1").unwrap().hash;
    assert_eq!(h.index.hash_refcount(&hash), 2);
}

#[test]
fn offload_says_what_is_wrong() {
    let mut h = Host::new();
    assert_eq!(
        message(h.offload("/nonexistent/file")),
        ("io error: /nonexistent/file: no such file".to_string(), 7)
    );
    h.files.insert("/l".to_string(), Node::Link { target: "/x".to_string() });
    assert_eq!(
        message(h.offload("/l")),
        ("invalid argument: /l is not a regular file".to_string(), 3)
    );
    h.put_file("/s", b"STOW1\n{}\n", 0o644, 1);
    assert_eq!(
        message(h.offload("/s")),
        ("invalid argument: /s is already offloaded".to_string(), 3)
    );
    let inside = "/Users/u/Library/CloudStorage/StowAgent-Stow/a";
    h.put_file(inside, b"x", 0o644, 1);
    assert_eq!(
        message(h.offload(inside)).0,
        format!(
            "invalid argument: {} is inside the Stow folder — it's already offload-managed",
            inside
        )
    );
    h.put_file("/f", b"contents", 0o644, 1);
    for (what, text, code) in [
        ("probe", "io error: broken", 7),
        ("read", "io error: cannot read", 7),
        ("meta", "io error: broken", 7),
        ("head", "io error: broken", 7),
        ("upload", "io error: broken", 7),
        ("record", "io error: broken", 7),
        ("render", "json", 1),
        ("write", "io error: broken", 7),
    ] {
        h.fail_on = what;
        h.objects.clear();
        assert_eq!(message(h.offload("/f")), (text.to_string(), code));
        match h.files.get("/f").unwrap() {
            Node::File { bytes, .. } => assert_eq!(bytes, b"contents"),
            _ => panic!("the file is gone"),
        }
    }
}

#[test]
fn restore_refuses_content_that_is_not_the_recorded_one() {
    let mut h = Host::new();
    assert_eq!(
        message(h.restore("/u/a")),
        ("not found: /u/a is not tracked by Stow".to_string(), 6)
    );
    h.put_file("/u/a", b"abc", 0o644, 5);
    h.offload("/u/a").unwrap();
    let key = ("stow-acct".to_string(), format!("objects/{}", ABC_HASH));
    h.objects.insert(key.clone(), b"abd".to_vec());
    let before = h.files.clone();
    let got = blake3::hash(b"abd").to_hex().to_string();
    assert_eq!(
        message(h.restore("/u/a")),
        (
            format!(
                "integrity check failed: /u/a: hash mismatch (expected {}, got {})",
                ABC_HASH, got
            ),
            10
        )
    );
    assert_eq!(h.files, before);
    h.objects.remove(&key);
    assert_eq!(
        message(h.restore("/u/a")),
        (format!("network error: get objects/{}: missing", ABC_HASH), 8)
    );
    h.objects.insert(key, b"abc".to_vec());
    for (what, text) in [
        ("write", "io error: broken"),
        ("mode", "io error: broken"),
        ("times", "io error: broken"),
        ("mark", "io error: broken"),
    ] {
        h.fail_on = what;
        assert_eq!(message(h.restore("/u/a")).0, text);
    }
}

#[test]
fn a_shared_file_is_served_until_it_is_revoked() {
    let mut h = Host::new();
    h.put_file("/u/My File.txt", b"abc", 0o644, 5);
    let r = h.share("/u/My File.txt").unwrap();
    assert_eq!(r.token, "01112131415161718191a1b1c1d1e1f1");
    assert_eq!(
        r.url,
        "https://stow-acct.s3.eu-west-1.amazonaws.com/shares/01112131415161718191a1b1c1d1e1f1/My%20File.txt"
    );
    assert_eq!(r.path, "/u/My File.txt");
    assert_eq!(r.size, 3);
    assert!(!r.is_folder);
    assert_eq!(r.file_count, 1);
    assert!(h.public);
    let key = format!("shares/{}/My File.txt", r.token);
    assert_eq!(
        h.objects.get(&("stow-acct".to_string(), key.clone())).unwrap(),
        &b"abc".to_vec()
    );
    let row = h.index.get_share(&r.token).unwrap();
    assert_eq!(row.s3_key, key);
    assert_eq!(row.url, r.url);
    assert_eq!(row.source, "/u/My File.txt");

    let gone = h.unshare(&r.token).unwrap();
    assert_eq!(gone.token, r.token);
    assert!(h.objects.is_empty());
    assert!(h.index.get_share(&r.token).is_none());
    assert_eq!(
        message(h.unshare(&r.token)),
        (format!("not found: no share with token {}", r.token), 6)
    );
}

#[test]
fn a_link_serves_what_was_shared() {
    let mut h = Host::new();
    h.put_file("/u/a", b"abc", 0o644, 5);
    let r = h.share("/u/a").unwrap();
    h.perform(Action::WriteFile { path: "/u/a".to_string(), data: b"other".to_vec() });
    h.offload("/u/a").unwrap();
    let key = ("stow-acct".to_string(), format!("shares/{}/a", r.token));
    assert_eq!(h.objects.get(&key).unwrap(), &b"abc".to_vec());
}

#[test]
fn an_offloaded_file_is_shared_without_a_download() {
    let mut h = Host::new();
    h.put_file("/u/a", b"abc", 0o644, 5);
    h.offload("/u/a").unwrap();
    h.fail_on = "read";
    let r = h.share("/u/a").unwrap();
    assert_eq!(r.size, 3);
    let key = ("stow-acct".to_string(), format!("shares/{}/a", r.token));
    assert_eq!(h.objects.get(&key).unwrap(), &b"abc".to_vec());
    h.put_file("/u/stray", b"STOW1\n{}\n", 0o644, 5);
    assert_eq!(
        message(h.share("/u/stray")),
        ("not found: /u/stray is offloaded but not tracked".to_string(), 6)
    );
}

#[test]
fn a_file_of_the_stow_folder_is_shared_from_its_object() {
    let mut h = Host::new();
    let path = "/Users/u/Library/CloudStorage/Stow/pic.png";
    h.put_file("/tmp/t", b"pixels", 0o644, 5);
    let it = h.create("pic.png", false, "/tmp/t").unwrap();
    h.put_file(path, b"", 0o644, 5);
    let r = h.share(path).unwrap();
    assert_eq!(r.size, 6);
    let key = ("stow-acct".to_string(), format!("shares/{}/pic.png", r.token));
    assert_eq!(h.objects.get(&key).unwrap(), &b"pixels".to_vec());
    assert!(it.s3_key.is_some());

    let other = "/Users/u/Library/CloudStorage/Stow/unknown.png";
    h.put_file(other, b"local", 0o644, 5);
    let r = h.share(other).unwrap();
    assert_eq!(r.size, 5);
}

#[test]
fn a_folder_is_shared_as_a_zip_file() {
    let mut h = Host::new();
    h.dirs.insert(
        "/u/Photos".to_string(),
        vec![
            Walked::Directory { rel: "".to_string() },
            Walked::File {
                rel: "a.txt".to_string(),
                path: "/u/Photos/a.txt".to_string(),
                data: Ok(b"abc".to_vec()),
            },
        ],
    );
    let r = h.share("/u/Photos").unwrap();
    assert!(r.is_folder);
    assert_eq!(r.file_count, 1);
    assert!(r.url.ends_with("/Photos.zip"));
    let key = ("stow-acct".to_string(), format!("shares/{}/Photos.zip", r.token));
    let data = h.objects.get(&key).unwrap();
    assert_eq!(data.len() as i64, r.size);
    assert_eq!(&data[0..2], b"PK");
}

#[test]
fn share_says_what_is_wrong() {
    let mut h = Host::new();
    assert_eq!(message(h.share("/none")).0, "io error: /none: no such file");
    h.put_file("/f", b"contents", 0o644, 1);
    for (what, text) in [
        ("random", "io error: urandom: broken"),
        ("open index", "io error: broken"),
        ("read", "io error: cannot read"),
        ("open shares", "io error: broken"),
        ("head", "io error: broken"),
        ("upload", "io error: broken"),
        ("save share", "io error: broken"),
    ] {
        h.fail_on = what;
        h.objects.clear();
        assert_eq!(message(h.share("/f")).0, text);
    }
    h.fail_on = "delete";
    let (mut flow, _) = unshare("01112131415161718191a1b1c1d1e1f1", &config());
    let row = ShareRow {
        token: "t".to_string(),
        source: "/f".to_string(),
        s3_key: "k".to_string(),
        url: "u".to_string(),
        size: 1,
        is_folder: false,
        created_at: 1,
    };
    assert!(matches!(flow.step(Reply::Share(Ok(Some(row)))), Step::Ask(Action::DeleteObject { .. })));
    assert!(matches!(flow.step(h.done("delete")), Step::End(Err(_))));
}

#[test]
fn setting_up_creates_the_bucket_and_writes_the_configuration() {
    let mut h = Host::new();
    let r = h.init(Some("eu-west-1")).unwrap();
    assert_eq!(r.bucket, "stow-123456789012-eu-west-1");
    assert_eq!(r.region, "eu-west-1");
    assert_eq!(r.account, "123456789012");
    assert!(r.created);
    assert_eq!(h.location, Some(Some("eu-west-1".to_string())));
    let cfg = h.config.clone().unwrap();
    assert_eq!(cfg.bucket, r.bucket);
    assert_eq!(cfg.prefix, "objects/");
    assert_eq!(cfg.access_key_id, Some("AK".to_string()));
    assert_eq!(cfg.policy.min_age_days, 90);
    assert_eq!(cfg.creds().unwrap().secret_access_key, "SK");

    let mut h = Host::new();
    h.bucket_exists = true;
    assert!(!h.init(None).unwrap().created);
    assert_eq!(h.location, None);
    assert_eq!(h.config.clone().unwrap().region, "us-east-1");

    let mut h = Host::new();
    h.init(Some("us-east-1")).unwrap();
    assert_eq!(h.location, Some(None));
}

#[test]
fn a_bucket_that_is_there_already_is_no_failure() {
    let mut h = Host::new();
    h.create_reply = Err("service error: BucketAlreadyOwnedByYou".to_string());
    assert!(h.init(Some("eu-west-1")).unwrap().created);
    let mut h = Host::new();
    h.create_reply = Err("access denied".to_string());
    assert_eq!(
        message(h.init(Some("eu-west-1"))),
        (
            "network error: create bucket stow-123456789012-eu-west-1: access denied".to_string(),
            8
        )
    );
    assert!(h.config.is_none());
    let mut h = Host::new();
    h.fail_on = "account";
    assert_eq!(message(h.init(None)).0, "network error: no account");
    let mut h = Host::new();
    h.fail_on = "open index";
    assert_eq!(message(h.init(None)).0, "io error: broken");
    let (_, step) = init_with("r".to_string(), policy());
    assert!(matches!(step, Step::Ask(Action::AccountId { .. })));
}

#[test]
fn migration_replaces_stubs_and_accounts_for_every_file() {
    let mut h = Host::new();
    assert_eq!(
        message(h.migrate()),
        (
            "invalid config: Stow folder isn't mounted — is StowAgent running?".to_string(),
            4
        )
    );
    for p in ["/u/1", "/u/2", "/u/3", "/u/4"] {
        h.put_file(p, p.as_bytes(), 0o644, 5);
        h.offload(p).unwrap();
    }
    h.restore("/u/2").unwrap();
    h.files.remove("/u/3");
    h.files.insert("/u/4".to_string(), Node::Link { target: "/x".to_string() });
    h.mount = Some("/m/Stow".to_string());
    h.looks = 0;
    h.signals = 0;
    let r = h.migrate().unwrap();
    assert_eq!(r.migrated, vec!["/u/1".to_string()]);
    assert!(r.failures.is_empty());
    assert_eq!(r.skipped, 3);
    assert_eq!(h.signals, 1);
    assert_eq!(
        h.files.get("/u/1").unwrap(),
        &Node::Link { target: "/m/Stow/.stow-inplace/m-_u_1".to_string() }
    );
    assert!(!h.files.contains_key("/u/.stow-0"));
    h.put_file("/u/5", b"five", 0o644, 5);
    h.mount = None;
    h.offload("/u/5").unwrap();
    h.mount = Some("/m/Stow".to_string());
    let r = h.migrate().unwrap();
    assert_eq!(r.migrated, vec!["/u/5".to_string()]);
    assert_eq!(r.skipped, 4);
}

#[test]
fn a_failed_upload_changes_nothing() {
    let mut h = Host::new();
    h.put_file("/u/a", b"abc", 0o644, 5);
    let before = h.files.get("/u/a").unwrap().clone();
    h.fail_on = "upload";
    assert!(h.offload("/u/a").is_err());
    assert_eq!(h.files.get("/u/a").unwrap(), &before);
    assert!(h.index.get("/u/a").is_none());
    assert!(h.objects.is_empty());
}

#[test]
fn migration_reports_failures() {
    let mut h = Host::new();
    h.put_file("/u/1", b"one", 0o644, 5);
    h.offload("/u/1").unwrap();
    h.mount = Some("/m/Stow".to_string());
    h.appears_after = 1000;
    let r = h.migrate().unwrap();
    assert_eq!(h.looks, 50);
    assert_eq!(r.failures[0].path, "/u/1");
    assert_eq!(r.failures[0].error, "mirror never appeared in the Stow folder");
    h.appears_after = 0;
    let stub = h.files.get("/u/1").unwrap().clone();
    for (what, text) in [("mirror", "io error: broken"), ("link", "broken"), ("rename", "broken")] {
        h.fail_on = what;
        let r = h.migrate().unwrap();
        assert_eq!(r.failures.len(), 1);
        assert_eq!(r.failures[0].path, "/u/1");
        assert_eq!(r.failures[0].error, text);
        assert!(r.migrated.is_empty());
        assert_eq!(h.files.len(), 1);
        assert_eq!(h.files.get("/u/1").unwrap(), &stub);
    }
    h.fail_on = "";
    h.files.insert("/u/.stow-0".to_string(), Node::Link { target: "/left".to_string() });
    let r = h.migrate().unwrap();
    assert_eq!(r.migrated, vec!["/u/1".to_string()]);
    assert_eq!(h.files.len(), 2);
    h.fail_on = "open store";
    assert_eq!(message(h.migrate()).0, "io error: broken");
}

#[test]
fn items_are_created_changed_and_fetched() {
    let mut h = Host::new();
    h.put_file("/tmp/a", b"abc", 0o644, 5);
    let it = h.create("notes.TXT", false, "/tmp/a").unwrap();
    assert_eq!(it.item_id, "itm-1001-7");
    assert_eq!(it.parent_id, ROOT);
    assert_eq!(it.filename, "notes.TXT");
    assert_eq!(it.content_type, "public.plain-text");
    assert_eq!(it.size, 3);
    assert_eq!(it.hash, Some(ABC_HASH.to_string()));
    assert_eq!(it.s3_key, Some(format!("fp/{}", ABC_HASH)));
    assert_eq!(it.version, 1);
    assert_eq!(it.modified_at, 1002);
    assert_eq!(it.last_access, 1003);
    assert!(!it.dataless);
    assert!(!it.is_folder);

    h.store.set_dataless(&it.item_id, true);
    let got = h.fetch(&it.item_id, "/out").unwrap();
    assert_eq!(got.item_id, it.item_id);
    match h.files.get("/out").unwrap() {
        Node::File { bytes, .. } => assert_eq!(bytes, b"abc"),
        _ => panic!("no file"),
    }
    let after = h.store.get(&it.item_id).unwrap();
    assert!(!after.dataless);
    assert_eq!(after.last_access, h.clock);

    h.put_file("/tmp/b", b"other", 0o644, 5);
    let new = h.update(&it.item_id, "/tmp/b").unwrap();
    assert_eq!(new.version, 2);
    assert_eq!(new.size, 5);
    assert_eq!(new.item_id, it.item_id);
    assert_eq!(new.content_type, "public.plain-text");
    assert_ne!(new.hash, it.hash);
    assert_eq!(h.store.get(&it.item_id).unwrap().version, 2);
    h.fetch(&it.item_id, "/out").unwrap();
    match h.files.get("/out").unwrap() {
        Node::File { bytes, .. } => assert_eq!(bytes, b"other"),
        _ => panic!("no file"),
    }

    let uploads = h.uploads;
    h.put_file("/tmp/c", b"abc", 0o644, 5);
    let twin = h.create("twin.txt", false, "/tmp/c").unwrap();
    assert_eq!(twin.s3_key, it.s3_key);
    assert_eq!(h.uploads, uploads);
}

#[test]
fn folders_are_created_without_content() {
    let mut h = Host::new();
    let it = h.create("Photos", true, "").unwrap();
    assert!(it.is_folder);
    assert_eq!(it.content_type, "public.folder");
    assert_eq!(it.size, 0);
    assert!(it.hash.is_none());
    assert!(it.s3_key.is_none());
    let same = h.create("Photos", false, "").unwrap();
    assert!(same.is_folder);
    assert_eq!(h.uploads, 0);
    assert_eq!(
        message(h.fetch(&it.item_id, "/out")),
        (format!("not found: {} has no s3 object", it.item_id), 6)
    );
}

#[test]
fn items_say_what_is_wrong() {
    let mut h = Host::new();
    assert_eq!(
        message(h.create("a", false, "/tmp/none")),
        ("io error: /tmp/none: cannot read".to_string(), 7)
    );
    assert_eq!(message(h.update("nope", "/tmp/a")), ("not found: nope".to_string(), 6));
    assert_eq!(message(h.fetch("nope", "/out")), ("not found: nope".to_string(), 6));
    h.put_file("/tmp/a", b"abc", 0o644, 5);
    let it = h.create("a", false, "/tmp/a").unwrap();
    assert_eq!(
        message(h.update(&it.item_id, "/tmp/none")).0,
        "io error: /tmp/none: cannot read"
    );
    let key = ("stow-acct".to_string(), it.s3_key.clone().unwrap());
    h.objects.insert(key, b"forged".to_vec());
    assert_eq!(
        message(h.fetch(&it.item_id, "/out")),
        (format!("integrity check failed: {}: hash mismatch", it.item_id), 10)
    );
    assert!(!h.files.contains_key("/out"));
    let mut last = it.clone();
    last.version = i64::MAX;
    assert!(has_last_version(&Reply::Item(Ok(Some(last)))));
}

#[test]
fn a_reply_that_does_not_answer_ends_a_flow() {
    let (mut flow, _) = offload("/a", &config(), INPLACE, false);
    let (text, code) = match flow.step(Reply::Ready) {
        Step::End(r) => message(r),
        Step::Ask(_) => panic!("the flow goes on"),
    };
    assert_eq!(text, "the reply does not answer the request");
    assert_eq!(code, 1);
    assert!(matches!(flow.step(Reply::Kind(Ok(true))), Step::End(Err(_))));
}

#[test]
fn a_record_keeps_what_was_offloaded() {
    let mut h = Host::new();
    h.put_file("/u/a", b"abc", 0o644, 5);
    h.offload("/u/a").unwrap();
    let r: Record = h.index.get("/u/a").unwrap();
    assert_eq!(r.size, 3);
    assert_eq!(r.s3_key, format!("objects/{}", ABC_HASH));
    h.restore("/u/a").unwrap();
    h.offload("/u/a").unwrap();
    assert!(!h.index.get("/u/a").unwrap().restored);
}

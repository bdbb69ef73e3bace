use std::io::Read;

use stow_core::archive::{check_names, is_packable, zip_dir, Walked};
use stow_core::cache;
use stow_core::cache::{CacheEntry, Moment, Sighting};
use stow_core::config;
use stow_core::config::{Config, Policy};
use stow_core::dates;
use stow_core::engine;
use stow_core::engine::{Arg, FolderItem, Sight};
use stow_core::error::{StowError, StowResult, StowStatus};
use stow_core::folder;
use stow_core::index::{Index, Record, ShareRow};
use stow_core::links;
use stow_core::offload::OffloadResult;
use stow_core::order;
use stow_core::paths;
use stow_core::placeholder;
use stow_core::placeholder::Probe;
use stow_core::policy;
use stow_core::policy::{Candidate, Entry};
use stow_core::provider;
use stow_core::provider::{Item, Store};
use stow_core::s3;
use stow_core::share;
use stow_core::text;
use stow_core::text::Separator;

fn s(x: &str) -> String {
    x.to_string()
}

fn message<T>(r: StowResult<T>) -> (String, i32) {
    match r {
        Ok(_) => panic!("an error was expected"),
        Err(e) => (e.message(), e.status().code()),
    }
}

fn sample_policy() -> Policy {
    Policy {
        min_size_bytes: 100,
        min_age_days: 2,
        roots: vec![s("/r1"), s("/r2")],
        excludes: vec![s("/Library/")],
        include_hidden: false,
    }
}

fn sample_config() -> Config {
    Config {
        bucket: s("b"),
        region: s("r"),
        prefix: s("objects/"),
        policy: sample_policy(),
        access_key_id: Some(s("AK")),
        secret_access_key: Some(s("SK")),
        session_token: Some(s("T")),
    }
}

fn record(path: &str, hash: &str, size: i64, at: i64) -> Record {
    Record {
        path: s(path),
        hash: s(hash),
        size,
        mode: 0o644,
        mtime: 9,
        s3_key: format!("objects/{}", hash),
        offloaded_at: at,
        restored: false,
    }
}

fn share_row(token: &str, at: i64) -> ShareRow {
    ShareRow {
        token: s(token),
        source: s("/f"),
        s3_key: format!("shares/{}/f", token),
        url: s("u"),
        size: 1,
        is_folder: false,
        created_at: at,
    }
}

fn item(id: &str, parent: &str, name: &str) -> Item {
    Item {
        item_id: s(id),
        parent_id: s(parent),
        filename: s(name),
        is_folder: false,
        size: 1,
        content_type: s("public.data"),
        hash: None,
        s3_key: None,
        version: 1,
        modified_at: 1,
        last_access: 1,
        dataless: true,
    }
}

// ---- text -----------------------------------------------------------------------

#[test]
fn text_is_cut_joined_and_compared() {
    assert_eq!(text::split("a//b", Separator::Is('/')), vec![s("a"), s(""), s("b")]);
    assert_eq!(text::split("", Separator::Is('/')), vec![s("")]);
    assert_eq!(text::split_words(" a \u{3000}b\n", Separator::Space), vec![s("a"), s("b")]);
    assert_eq!(text::trim("--a-b--", Separator::Is('-')), "a-b");
    assert!(text::contains("héllo", "él"));
    assert!(!text::contains("abc", "abd"));
    assert!(text::starts_with("abc", ""));
    assert!(text::ends_with("x-Stow", "-Stow"));
    assert!(text::same("ä", "ä"));
    assert!(!text::same("a", "b"));
    assert_eq!(text::join_bytes(b"/a", b"b"), b"/a/b");
    assert_eq!(text::join_bytes(b"/a/", b"b"), b"/a/b");
    assert_eq!(text::join_bytes(b"", b"b"), b"b");
    assert_eq!(text::join_bytes(b"/a", b"/b"), b"/b");
    let chars = text::chars_of("aböc");
    assert_eq!(text::find(&chars, &text::chars_of("ö")), Some(2));
    assert_eq!(text::string_of(&text::sub_chars(&chars, 1, 3)), "bö");
    assert_eq!(text::cat3("a", "b", "c"), "abc");
}

#[test]
fn numbers_are_written_and_read() {
    assert_eq!(text::format_u64(0), "0");
    assert_eq!(text::format_u64(u64::MAX), u64::MAX.to_string());
    assert_eq!(text::format_i64(i64::MIN), i64::MIN.to_string());
    assert_eq!(text::parse_i64(&text::chars_of("-9223372036854775808")), Some(i64::MIN));
    assert_eq!(text::parse_i64(&text::chars_of("9223372036854775808")), None);
    assert_eq!(text::parse_i64(&text::chars_of("+007")), Some(7));
    assert_eq!(text::parse_i64(&text::chars_of("")), None);
    assert_eq!(text::parse_i64(&text::chars_of("-")), None);
    assert_eq!(text::parse_i64(&text::chars_of("1a")), None);
}

#[test]
fn names_are_ordered_by_their_bytes() {
    assert!(order::name_le("a", "b"));
    assert!(order::name_le("a", "ab"));
    assert!(order::name_le("B", "a"));
    assert!(!order::name_le("ä", "z"));
    assert!(order::name_le("", ""));
    assert!(order::all_different(vec![
        order::Name { text: s("a") },
        order::Name { text: s("b") }
    ]));
    assert!(!order::all_different(vec![
        order::Name { text: s("a") },
        order::Name { text: s("b") },
        order::Name { text: s("a") }
    ]));
}

// ---- errors ---------------------------------------------------------------------

#[test]
fn errors_have_codes_and_texts() {
    let all: Vec<(StowError, StowStatus, i32, &str)> = vec![
        (StowError::InvalidArg(s("x")), StowStatus::InvalidArg, 3, "invalid argument: x"),
        (StowError::InvalidConfig(s("x")), StowStatus::InvalidConfig, 4, "invalid config: x"),
        (StowError::Unimplemented("x"), StowStatus::Unimplemented, 5, "not implemented yet: x"),
        (StowError::NotFound(s("x")), StowStatus::NotFound, 6, "not found: x"),
        (StowError::Io(s("x")), StowStatus::Io, 7, "io error: x"),
        (StowError::Network(s("x")), StowStatus::Network, 8, "network error: x"),
        (StowError::Cancelled, StowStatus::Cancelled, 9, "cancelled"),
        (StowError::Integrity(s("x")), StowStatus::Integrity, 10, "integrity check failed: x"),
        (StowError::Unknown(s("x")), StowStatus::Unknown, 1, "x"),
    ];
    for (e, status, code, text) in all {
        assert_eq!(e.status().code(), code);
        assert_eq!(status.code(), code);
        assert_eq!(e.message(), text);
        assert_eq!(engine::report(&e), (s(text), code));
    }
    assert_eq!(StowStatus::Success.code(), 0);
    assert_eq!(StowStatus::Panic.code(), 2);
}

// ---- configuration --------------------------------------------------------------

#[test]
fn bucket_names_are_lowercase_and_trimmed() {
    assert_eq!(
        config::derive_bucket_name("123456789012-us-east-1"),
        "stow-123456789012-us-east-1"
    );
    assert_eq!(config::derive_bucket_name("--My Host!--"), "stow-my-host");
    assert_eq!(config::derive_bucket_name("ÄÖ"), "stow-");
    assert_eq!(config::derive_bucket_name("my-HOST"), config::derive_bucket_name("-My-Host--"));
    let longest = "a".repeat(58);
    assert_eq!(config::derive_bucket_name(&longest).len(), 63);
}

#[test]
fn the_default_policy_is_conservative() {
    let p = Policy::default();
    assert_eq!(p.min_size_bytes, 10 * 1024 * 1024);
    assert_eq!(p.min_age_days, 90);
    assert!(!p.include_hidden);
    let home = match dirs::home_dir() {
        Some(h) => h.to_string_lossy().into_owned(),
        None => String::new(),
    };
    assert_eq!(p.roots, vec![home.clone()]);
    assert_eq!(config::default_roots(), vec![home]);
    assert_eq!(config::default_roots_under(s("/Users/u")), vec![s("/Users/u")]);
    let excludes = config::default_excludes();
    for e in [
        "/Library/",
        "/.Trash/",
        "node_modules",
        "/.git/",
        "/DerivedData/",
        "/.venv/",
        "/Applications/",
        "/go/pkg/mod/cache/download/",
        "/.npm/_cacache/",
    ] {
        assert!(excludes.contains(&s(e)));
    }
    assert_eq!(excludes.len(), 30);
    assert!(!policy::admits(&p, true, "/Users/u/go/pkg/mod/cache/download/x.zip"));
    assert!(policy::admits(&p, true, "/Users/u/go/src/x.zip"));
    assert_eq!(config::default_prefix(), "objects/");
}

#[test]
fn stow_keeps_its_files_in_the_shared_container() {
    let dir = Some(s("/Group Containers/stow"));
    assert_eq!(Config::support_dir(dir.clone()).unwrap(), b"/Group Containers/stow");
    assert_eq!(
        Config::config_path(dir.clone()).unwrap(),
        b"/Group Containers/stow/config.json"
    );
    assert_eq!(Config::index_path(dir.clone()).unwrap(), b"/Group Containers/stow/index.db");
    assert_eq!(provider::db_path(dir).unwrap(), b"/Group Containers/stow/provider.db");
    let expected =
        dirs::data_dir().map(|d| d.join("ai.exla.stow").into_os_string().into_encoded_bytes());
    assert_eq!(Config::support_dir(None).ok(), expected);
    assert_eq!(Config::support_dir(Some(s(" \t"))).ok(), expected);
    assert_eq!(
        config::support_dir_in(None, Some(b"/da\xffta".to_vec())).unwrap(),
        b"/da\xffta/ai.exla.stow"
    );
    assert_eq!(
        message(config::support_dir_in(Some(s("  ")), None)).0,
        "io error: cannot resolve Application Support dir"
    );
}

#[test]
fn keys_and_credentials_come_from_the_configuration() {
    let cfg = sample_config();
    assert_eq!(cfg.object_key("abc"), "objects/abc");
    let c = cfg.creds().unwrap();
    assert_eq!(c.access_key_id, "AK");
    assert_eq!(c.secret_access_key, "SK");
    assert_eq!(c.session_token, Some(s("T")));
    let mut none = cfg.clone();
    none.access_key_id = Some(s(""));
    assert!(none.creds().is_none());
    let mut none = cfg.clone();
    none.secret_access_key = None;
    assert!(none.creds().is_none());
    let r = cfg.remote();
    assert_eq!(r.bucket, "b");
    assert_eq!(r.region, "r");
    assert!(r.creds.is_some());
}

#[test]
fn the_region_comes_from_the_first_setting() {
    assert_eq!(config::default_region(Some(s("a")), Some(s("b"))), "a");
    assert_eq!(config::default_region(None, Some(s("b"))), "b");
    assert_eq!(config::default_region(None, None), "us-east-1");
}

#[test]
fn only_regular_files_pass() {
    assert!(config::ensure_regular_file("/f", Ok(true)).is_ok());
    assert_eq!(
        message(config::ensure_regular_file("/f", Ok(false))),
        (s("invalid argument: /f is not a regular file"), 3)
    );
    assert_eq!(
        message(config::ensure_regular_file("/f", Err(s("gone")))),
        (s("io error: /f: gone"), 7)
    );
}

#[test]
fn commands_without_setup_fail_cleanly() {
    assert_eq!(
        message(engine::load_cfg(Ok(None))),
        (s("invalid config: Stow is not initialized — run `stow init` first"), 4)
    );
    assert_eq!(message(engine::get_config(Err(StowError::Io(s("x"))))).0, "io error: x");
    assert_eq!(engine::get_config(Ok(Some(sample_config()))).unwrap().bucket, "b");
    assert_eq!(
        message(folder::config_to_create(Ok(None))).0,
        "invalid config: not initialized — run `stow init`"
    );
    assert_eq!(
        message(folder::config_to_use(Ok(None))).0,
        "invalid config: not initialized"
    );
}

#[test]
fn the_policy_is_replaced_and_nothing_else() {
    let mut p = sample_policy();
    p.min_age_days = 30;
    let cfg = engine::set_policy(Ok(p), Ok(Some(sample_config()))).unwrap();
    assert_eq!(cfg.policy.min_age_days, 30);
    assert_eq!(cfg.bucket, "b");
    assert_eq!(engine::get_config(Ok(Some(cfg))).unwrap().policy.min_age_days, 30);
    assert_eq!(
        message(engine::set_policy(Err(s("bad json")), Ok(None))).0,
        "invalid config: policy: bad json"
    );
    assert_eq!(
        message(engine::set_policy(Ok(sample_policy()), Ok(None))).0,
        "invalid config: Stow is not initialized — run `stow init` first"
    );
}

#[test]
fn arguments_are_named_in_errors() {
    assert_eq!(message(engine::text_arg("path", Arg::Null)).0, "invalid argument: path is null");
    assert_eq!(
        message(engine::text_arg("path", Arg::NotText)).0,
        "invalid argument: path is not valid UTF-8"
    );
    assert_eq!(engine::text_arg("path", Arg::Text(s("/a"))).unwrap(), "/a");
    assert_eq!(message(engine::require_item(Ok(None), "i")).0, "not found: i");
    assert_eq!(
        engine::require_item(Ok(Some(item("i", "p", "n"))), "i").unwrap().filename,
        "n"
    );
}

// ---- storage --------------------------------------------------------------------

#[test]
fn storage_decisions() {
    assert_eq!(s3::bucket_location("us-east-1"), None);
    assert_eq!(s3::bucket_location("eu-west-1"), Some(s("eu-west-1")));
    assert!(s3::bucket_created("b", Ok(())).is_ok());
    assert!(s3::bucket_created("b", Err(s("x BucketAlreadyExists y"))).is_ok());
    assert!(s3::bucket_created("b", Err(s("BucketAlreadyOwnedByYou"))).is_ok());
    assert_eq!(
        message(s3::bucket_created("b", Err(s("denied")))).0,
        "network error: create bucket b: denied"
    );
    assert_eq!(
        s3::call_failed("put", "objects/ab", "timed out").message(),
        "network error: put objects/ab: timed out"
    );
}

// ---- dates and policy -----------------------------------------------------------

#[test]
fn dates_are_counted_from_1970() {
    assert_eq!(dates::days_from_civil(1970, 1, 1), 0);
    assert_eq!(dates::days_from_civil(1969, 12, 31), -1);
    assert_eq!(dates::days_from_civil(2000, 3, 1), 11017);
    assert_eq!(dates::days_from_civil(2024, 2, 29), 19782);
    assert!(dates::check_civil(2024, 2, 29));
    assert!(!dates::check_civil(i64::MAX, 1, 1));
    assert_eq!(dates::parse_tz("+0000"), 0);
    assert_eq!(dates::parse_tz("-0730"), -27000);
    assert_eq!(dates::parse_tz("+1"), 0);
    assert!(!dates::check_tz("+0é00"));
    assert_eq!(dates::parse_tz("+é030"), 180);
    assert_eq!(dates::parse_mdls_date("2026-05-30 18:42:11 +0000"), Some(1780166531));
    assert_eq!(dates::parse_mdls_date(" 2026-05-30 18:42:11 -0700 "), Some(1780191731));
    assert_eq!(dates::parse_mdls_date("2026-05-30 18:42"), Some(1780166520));
    assert_eq!(dates::parse_mdls_date("(null)"), None);
    assert_eq!(dates::parse_mdls_date(""), None);
    assert_eq!(dates::parse_mdls_date("2026-05 18:42:11"), None);
    assert_eq!(dates::parse_mdls_date("2026-05-30 18:42:11 é0000"), None);
    assert!(dates::check_mdls_date("2026-05-30 18:42:11 é0000"));
    assert!(dates::check_mdls_date("2026-05-30 18:42:11 +0000"));
    assert!(!dates::check_mdls_date("9223372036854775807-05-30 18:42:11 +0000"));
}

#[test]
fn spotlight_replies_are_read() {
    assert_eq!(
        policy::spotlight_values("2026-05-30 18:42:11 +0000\0 12"),
        (Some(1780166531), Some(12))
    );
    assert_eq!(policy::spotlight_values("(null)\0(null)"), (None, None));
    assert_eq!(policy::spotlight_values("(null)"), (None, None));
    assert!(policy::check_spotlight("(null)\0(null)"));
}

#[test]
fn walks_stay_out_of_risky_directories() {
    let none: Vec<String> = Vec::new();
    assert!(policy::should_descend(false, ".ssh", "/u/.ssh", &none, false));
    assert!(!policy::should_descend(true, ".ssh", "/u/.ssh", &none, true));
    assert!(!policy::should_descend(true, ".cache", "/u/.cache", &none, false));
    assert!(policy::should_descend(true, ".cache", "/u/.cache", &none, true));
    assert!(!policy::should_descend(true, "X.app", "/u/X.app", &none, true));
    assert!(!policy::should_descend(true, "b", "/u/a/b", &vec![s("/a/")], true));
    assert!(policy::should_descend(true, "b", "/u/b", &vec![s("/a/")], true));
    assert!(policy::is_sensitive_dir(".git"));
    assert!(!policy::is_sensitive_dir("git"));
    assert!(policy::is_package_dir("My.photoslibrary"));
    assert!(policy::path_has_hidden_component("/u/.x/f"));
    assert!(policy::path_has_hidden_component("./f"));
    assert!(!policy::path_has_hidden_component("/u/./f"));
    assert!(policy::path_has_hidden_component("/u/../f"));
    assert_eq!(policy::fs_last_used(3, 5), 5);
}

fn entry(path: &str, len: u64, used: i64) -> Entry {
    Entry {
        is_file: true,
        path: s(path),
        len,
        atime: used,
        mtime: used - 10,
        placeholder: false,
        last_used: None,
        use_count: None,
    }
}

#[test]
fn guarded_directories_hold_no_candidates() {
    let mut pol = sample_policy();
    pol.include_hidden = true;
    let now: i64 = 100 * 86_400;
    let found = vec![
        entry("/Users/me/.ssh/keys/id", 300, 0),
        entry("/u/.git/objects/pack", 300, 0),
        entry("/u/X.app/Contents/data", 300, 0),
        entry("/u/My.photoslibrary/originals/1", 300, 0),
        entry("/u/.cache/big", 300, 0),
        entry("/u/backup.app", 200, 0),
    ];
    let c = policy::scan(&pol, now, &found);
    let names: Vec<&str> = c.iter().map(|x| x.path.as_str()).collect();
    assert_eq!(names, vec!["/u/.cache/big", "/u/backup.app"]);
    assert!(policy::lies_in_guarded_dir("/u/.aws/x"));
    assert!(!policy::lies_in_guarded_dir("/u/.aws"));
}

#[test]
fn candidates_are_large_and_stale() {
    let pol = sample_policy();
    let day: i64 = 86_400;
    let now: i64 = 100 * day;
    let mut seen = entry("/r1/spot", 300, 0);
    seen.last_used = Some(now - 3 * day);
    seen.use_count = Some(4);
    let mut recent = entry("/r1/recent", 300, 0);
    recent.last_used = Some(now - day);
    let mut dir = entry("/r1/dir", 300, 0);
    dir.is_file = false;
    let mut stub = entry("/r1/stub", 300, 0);
    stub.placeholder = true;
    let found = vec![
        entry("/r1/small", 99, 0),
        entry("/r1/big", 100, now - 2 * day),
        entry("/r1/fresh", 500, now - 2 * day + 1),
        entry("/r1/.hidden/f", 500, 0),
        entry("/r1/Library/f", 500, 0),
        seen,
        recent,
        dir,
        stub,
        entry("/r1/same", 300, 0),
    ];
    assert!(policy::check_scan(&pol, now, &found));
    let c = policy::scan(&pol, now, &found);
    let names: Vec<&str> = c.iter().map(|x| x.path.as_str()).collect();
    assert_eq!(names, vec!["/r1/spot", "/r1/same", "/r1/big"]);
    assert_eq!(c[0].size, 300);
    assert_eq!(c[0].days_unused, 3);
    assert_eq!(c[0].signal, "spotlight");
    assert_eq!(c[0].use_count, Some(4));
    assert_eq!(c[2].days_unused, 2);
    assert_eq!(c[2].signal, "filesystem");
    assert!(policy::admits(&pol, true, "/r1/a"));
    assert!(!policy::admits(&pol, false, "/r1/a"));
    assert!(policy::is_large_enough(&pol, 100));
    let far = vec![entry("/r1/x", 300, i64::MIN + 10)];
    assert!(!policy::check_scan(&pol, now, &far));
    let mut never = sample_policy();
    never.min_age_days = i64::MAX as u64;
    assert!(!policy::check_scan(&never, now, &Vec::new()));
}

// ---- index ----------------------------------------------------------------------

#[test]
fn the_index_finds_what_was_recorded() {
    let mut x = Index::open(Vec::new(), Vec::new()).unwrap();
    x.upsert(&record("/a", "h1", 1, 10));
    x.upsert(&record("/b", "h1", 2, 30));
    x.upsert(&record("/c", "h2", 3, 20));
    assert_eq!(x.get("/b").unwrap().size, 2);
    assert!(x.get("/d").is_none());
    let paths: Vec<String> = x.all().iter().map(|r| r.path.clone()).collect();
    assert_eq!(paths, vec![s("/b"), s("/c"), s("/a")]);
    assert_eq!(x.hash_refcount("h1"), 2);
    assert_eq!(x.hash_refcount("none"), 0);
    x.set_restored("/a", true);
    assert!(x.get("/a").unwrap().restored);
    assert!(!x.get("/b").unwrap().restored);
    let mut again = record("/a", "h3", 9, 40);
    again.restored = true;
    x.upsert(&again);
    assert!(!x.get("/a").unwrap().restored);
    assert_eq!(x.get("/a").unwrap().size, 9);
    assert_eq!(x.all().len(), 3);
    x.remove("/a");
    assert!(x.get("/a").is_none());
    x.remove("/nope");
    x.set_restored("/nope", true);
    assert_eq!(x.all().len(), 2);
    assert!(Index::open(vec![record("/a", "h", 1, 1), record("/a", "g", 1, 1)], Vec::new()).is_none());
    assert!(Index::open(Vec::new(), vec![share_row("t", 1), share_row("t", 2)]).is_none());
}

#[test]
fn share_links_are_listed_newest_first() {
    let mut x = Index::open(Vec::new(), Vec::new()).unwrap();
    x.add_share(&share_row("t1", 1));
    x.add_share(&share_row("t2", 3));
    x.add_share(&share_row("t3", 3));
    let tokens: Vec<String> =
        engine::list_shares(&x).shares.iter().map(|r| r.token.clone()).collect();
    assert_eq!(tokens, vec![s("t2"), s("t3"), s("t1")]);
    x.add_share(&share_row("t1", 9));
    assert_eq!(x.list_shares()[0].token, "t1");
    assert_eq!(x.get_share("t1").unwrap().created_at, 9);
    x.remove_share("t1");
    assert!(x.get_share("t1").is_none());
    assert_eq!(x.list_shares().len(), 2);
    x.remove_share("t9");
    assert_eq!(x.list_shares().len(), 2);
}

// ---- items ----------------------------------------------------------------------

#[test]
fn items_are_found_by_identifier_and_folder() {
    let mut st = Store::open(vec![
        item("1", provider::ROOT, "b"),
        item("2", provider::ROOT, "B"),
        item("3", "1", "x"),
    ])
    .unwrap();
    let names: Vec<String> = st.children(provider::ROOT).iter().map(|i| i.filename.clone()).collect();
    assert_eq!(names, vec![s("B"), s("b")]);
    assert!(st.children("none").is_empty());
    st.set_dataless("3", false);
    assert!(!st.get("3").unwrap().dataless);
    assert!(st.get("1").unwrap().dataless);
    st.touch_access("3", 77);
    assert_eq!(st.get("3").unwrap().last_access, 77);
    let mut changed = item("3", "1", "y");
    changed.version = 5;
    st.upsert(&changed);
    assert_eq!(st.get("3").unwrap().version, 5);
    st.delete("3");
    assert!(st.get("3").is_none());
    st.touch_access("3", 1);
    assert!(Store::open(vec![item("1", "p", "a"), item("1", "p", "b")]).is_none());
}

#[test]
fn places_in_the_stow_folder_lead_to_items() {
    let mut folder_item = item("d", provider::ROOT, "Photos");
    folder_item.is_folder = true;
    let items = vec![folder_item, item("f", "d", "trip.heic"), item("g", provider::ROOT, "trip.heic")];
    let found = share::fp_item_for(&items, &vec![s("Photos"), s("trip.heic")]).unwrap();
    assert_eq!(found.item_id, "f");
    assert!(share::fp_item_for(&items, &vec![s("Photos"), s("none")]).is_none());
    assert!(share::fp_item_for(&items, &vec![s("none"), s("trip.heic")]).is_none());
    assert!(share::fp_item_for(&items, &Vec::new()).is_none());
}

#[test]
fn content_types_come_from_the_extension() {
    for (name, ty) in [
        ("a.txt", "public.plain-text"),
        ("a.PDF", "com.adobe.pdf"),
        ("a.b.Png", "public.png"),
        ("a.jpg", "public.jpeg"),
        ("a.JPEG", "public.jpeg"),
        ("a.mov", "com.apple.quicktime-movie"),
        ("a.mp4", "public.mpeg-4"),
        ("a.zip", "public.zip-archive"),
        ("zip", "public.zip-archive"),
        ("a.", "public.data"),
        ("a.rs", "public.data"),
        ("", "public.data"),
        ("a.ÄÖ", "public.data"),
    ] {
        assert_eq!(folder::guess_type(name), ty);
    }
    assert_eq!(folder::type_for_extension("PDF"), "public.data");
    assert_eq!(folder::type_for_extension("pdf"), "com.adobe.pdf");
}

#[test]
fn identifiers_hold_the_time_and_the_count() {
    assert_eq!(folder::new_id(1700000000, 3), "itm-1700000000-3");
    assert_eq!(folder::new_id(-1, 0), "itm--1-0");
}

// ---- links and paths ------------------------------------------------------------

#[test]
fn links_are_encoded() {
    assert_eq!(links::token_of(&vec![0u8, 255, 16, 171]), "00ff10ab");
    assert_eq!(links::token_of(&Vec::new()), "");
    assert_eq!(links::url_encode("aZ0-_.~"), "aZ0-_.~");
    assert_eq!(links::url_encode("a b/c?"), "a%20b%2Fc%3F");
    assert_eq!(links::url_encode("é"), "%C3%A9");
    assert_eq!(links::share_key("t", "n m"), "shares/t/n m");
    assert_eq!(
        links::share_url("b", "r", "t", "n m"),
        "https://b.s3.r.amazonaws.com/shares/t/n%20m"
    );
}

#[test]
fn places_in_the_stow_folder_are_recognised() {
    let base = "/Users/u/Library/CloudStorage/";
    assert_eq!(
        paths::fp_relative(&format!("{}StowAgent-Stow/Photos//trip.heic", base)),
        Some(vec![s("Photos"), s("trip.heic")])
    );
    assert_eq!(paths::fp_relative(&format!("{}Stow", base)), Some(Vec::new()));
    assert_eq!(paths::fp_relative(&format!("{}Dropbox/a", base)), None);
    assert_eq!(paths::fp_relative(base), None);
    assert_eq!(paths::fp_relative("/Users/u/a"), None);
    assert!(paths::is_stow_mount("X-Stow"));
    assert!(!paths::is_stow_mount("XStow"));
    assert_eq!(
        paths::cloudstorage_root(
            b"/cs",
            &vec![b"Dropbox".to_vec(), b"\xff-Stow".to_vec(), b"Stow".to_vec()]
        ),
        Some(b"/cs/\xff-Stow".to_vec())
    );
    assert_eq!(paths::cloudstorage_root(b"/cs", &vec![b"Dropbox".to_vec()]), None);
    assert_eq!(
        paths::cloudstorage_in(Some(b"/Users/u".to_vec())),
        Some(b"/Users/u/Library/CloudStorage".to_vec())
    );
    assert_eq!(paths::cloudstorage_in(None), None);
    let expected = dirs::home_dir()
        .map(|h| h.join("Library/CloudStorage").into_os_string().into_encoded_bytes());
    assert_eq!(paths::cloudstorage_dir(), expected);
}

#[test]
fn names_beside_a_file_are_short() {
    assert_eq!(paths::beside_path("/u/a file.txt", 0), "/u/.stow-0");
    assert_eq!(paths::beside_path("/u/x", 12), "/u/.stow-12");
    assert_eq!(paths::beside_path("x", 1), ".stow-1");
}

#[test]
fn the_last_name_of_a_path_is_its_name() {
    assert_eq!(paths::base_name("/u/a.txt"), "a.txt");
    assert_eq!(paths::base_name("/u/a/"), "a");
    assert_eq!(paths::base_name("/u/a/."), "a");
    assert_eq!(paths::base_name("/"), "file");
    assert_eq!(paths::base_name(""), "file");
    assert_eq!(paths::base_name("a/.."), "file");
    assert_eq!(paths::base_name("."), "file");
}

// ---- placeholders ---------------------------------------------------------------

#[test]
fn placeholders_are_recognised() {
    let inplace = ".stow-inplace";
    let link = |t: &str| Probe::Link(Some(s(t)));
    let yes = link("/Users/u/Library/CloudStorage/Stow/.stow-inplace/x");
    assert!(placeholder::is_placeholder(&yes, inplace).unwrap());
    assert!(!placeholder::is_placeholder(&link("/Users/u/x"), inplace).unwrap());
    assert!(!placeholder::is_placeholder(&link("/Library/CloudStorage/x"), inplace).unwrap());
    assert!(!placeholder::is_placeholder(&Probe::Link(None), inplace).unwrap());
    assert!(!placeholder::is_placeholder(&Probe::Nothing, inplace).unwrap());
    let stub = placeholder::frame_placeholder("{}");
    assert_eq!(stub, b"STOW1\n{}\n".to_vec());
    let file = |len: u64, head: &[u8]| Probe::File { len, head: Ok(head.to_vec()) };
    assert!(placeholder::is_placeholder(&file(9, &stub[0..6]), inplace).unwrap());
    assert!(!placeholder::is_placeholder(&file(9, b"STOW2\n"), inplace).unwrap());
    assert!(!placeholder::is_placeholder(&file(5, b"STOW1"), inplace).unwrap());
    let bad = Probe::File { len: 9, head: Err(s("no")) };
    assert_eq!(message(placeholder::is_placeholder(&bad, inplace)).0, "io error: no");
}

// ---- archives -------------------------------------------------------------------

fn walked(rel: &str, data: &[u8]) -> Walked {
    Walked::File { rel: s(rel), path: format!("/d/{}", rel), data: Ok(data.to_vec()) }
}

#[test]
fn a_directory_is_packed_without_the_mirror_area() {
    let walk = vec![
        Walked::Directory { rel: s("") },
        walked("a.txt", b"abc"),
        Walked::Directory { rel: s("sub") },
        walked("sub/b.bin", &[7u8; 1000]),
        walked("empty", b""),
        Walked::Other,
        Walked::Directory { rel: s(".stow-inplace") },
        walked(".stow-inplace/x", b"secret"),
    ];
    assert!(check_names(&walk, ".stow-inplace"));
    let (bytes, count) = zip_dir(&walk, ".stow-inplace").unwrap();
    assert_eq!(count, 3);
    let mut z = zip::ZipArchive::new(std::io::Cursor::new(bytes.clone())).unwrap();
    let names: Vec<String> = (0..z.len()).map(|i| s(z.by_index(i).unwrap().name())).collect();
    assert_eq!(names, vec![s("a.txt"), s("sub/"), s("sub/b.bin"), s("empty")]);
    let mut got = Vec::new();
    z.by_name("sub/b.bin").unwrap().read_to_end(&mut got).unwrap();
    assert_eq!(got, vec![7u8; 1000]);
    let mut got = Vec::new();
    z.by_name("a.txt").unwrap().read_to_end(&mut got).unwrap();
    assert_eq!(got, b"abc");
    let (again, _) = zip_dir(&walk, ".stow-inplace").unwrap();
    assert_eq!(again, bytes);
    assert!(!is_packable("", "x"));
    assert!(is_packable("a", "x"));
    assert!(!is_packable("xa", "x"));
}

#[test]
fn packing_stops_at_the_first_failure() {
    let walk = vec![walked("a", b"1"), Walked::Failed(s("lost")), walked("b", b"2")];
    assert_eq!(message(zip_dir(&walk, "i")), (s("io error: lost"), 7));
    let unread = Walked::File { rel: s("a"), path: s("/d/a"), data: Err(s("denied")) };
    assert_eq!(message(zip_dir(&vec![unread], "i")).0, "io error: /d/a: denied");
    let twice = vec![walked("a", b"1"), walked("a", b"2")];
    assert_eq!(message(zip_dir(&twice, "i")).1, 7);
    let long: String = std::iter::repeat('x').take(65536).collect();
    assert!(!check_names(&vec![walked(&long, b"")], "i"));
    assert!(check_names(&vec![walked(&long, b"")], "x"));
    let dirs_twice = vec![Walked::Directory { rel: s("d") }, Walked::Directory { rel: s("d") }];
    assert!(zip_dir(&dirs_twice, "i").is_err());
    let (empty, n) = zip_dir(&Vec::new(), "i").unwrap();
    assert_eq!(n, 0);
    assert_eq!(zip::ZipArchive::new(std::io::Cursor::new(empty)).unwrap().len(), 0);
}

// ---- caches ---------------------------------------------------------------------

fn moment(secs: i64) -> Moment {
    Moment { secs, nanos: 0 }
}

#[test]
fn caches_are_measured() {
    let seen = vec![
        Sighting { is_file: false, len: 4096, modified: Some(moment(50)) },
        Sighting { is_file: true, len: 10, modified: Some(Moment { secs: 50, nanos: 1 }) },
        Sighting { is_file: true, len: 5, modified: None },
        Sighting { is_file: true, len: 1, modified: Some(moment(-4)) },
    ];
    assert!(cache::check_measure(&seen));
    let (size, newest) = cache::measure(&seen);
    assert_eq!(size, 16);
    assert_eq!((newest.secs, newest.nanos), (50, 1));
    let (size, newest) = cache::measure(&Vec::new());
    assert_eq!((size, newest.secs, newest.nanos), (0, 0, 0));
    let huge = vec![
        Sighting { is_file: true, len: i64::MAX, modified: None },
        Sighting { is_file: true, len: 1, modified: None },
    ];
    assert!(!cache::check_measure(&huge));
}

#[test]
fn idle_caches_are_listed_largest_first() {
    let paths = cache::places_in(Some(b"/Users/\xff".to_vec())).unwrap();
    assert_eq!(paths.len(), 23);
    assert_eq!(paths[0], b"/Users/\xff/.npm/_cacache");
    assert_eq!(paths[22], b"/Users/\xff/Library/Developer/Xcode/DerivedData");
    assert_eq!(message(cache::places_in(None)).0, "io error: cannot resolve home directory");
    let expected = dirs::home_dir().map(|h| h.join(".npm/_cacache").into_os_string().into_encoded_bytes());
    assert_eq!(cache::places().ok().map(|p| p[0].clone()), expected);
    let day: i64 = 86_400;
    let now = moment(100 * day);
    let mut found: Vec<Option<(i64, Moment)>> = vec![None; 23];
    found[0] = Some((5, moment(90 * day)));
    found[1] = Some((50, moment(97 * day)));
    found[2] = Some((500, moment(98 * day + 1)));
    found[3] = Some((0, moment(0)));
    found[4] = Some((7, moment(200 * day)));
    let list = cache::scan(2, &paths, &found, now);
    let names: Vec<&str> = list.iter().map(|e| e.name.as_str()).collect();
    assert_eq!(names, vec!["bun", "npm"]);
    assert_eq!(list[0].idle_days, 3);
    assert_eq!(list[0].path, "/Users/\u{fffd}/.bun/install/cache");
    assert_eq!(list[0].regenerates, "re-fetched by bun");
    assert!(!list[0].removed);
    let all = cache::scan(0, &paths, &found, now);
    assert_eq!(all.len(), 4);
    assert_eq!(all[0].name, "uv");
    assert_eq!(all[3].idle_days, 10);
    assert_eq!(all[2].idle_days, 0);
}

fn cache_entry(name: &str, size: i64) -> CacheEntry {
    CacheEntry {
        name: s(name),
        path: format!("/{}", name),
        size_bytes: size,
        idle_days: 9,
        regenerates: s("again"),
        removed: false,
    }
}

#[test]
fn cleaning_counts_what_was_removed() {
    let entries = vec![cache_entry("a", 10), cache_entry("b", 5)];
    assert!(cache::check_sizes(&entries));
    let r = cache::clean(3, true, entries.clone(), &vec![true, false]);
    assert_eq!(r.min_idle_days, 3);
    assert!(r.applied);
    assert_eq!(r.reclaimable_bytes, 15);
    assert_eq!(r.freed_bytes, 10);
    assert!(r.entries[0].removed);
    assert!(!r.entries[1].removed);
    let dry = cache::clean(3, false, entries, &Vec::new());
    assert_eq!(dry.freed_bytes, 0);
    assert_eq!(dry.reclaimable_bytes, 15);
    assert!(!dry.applied);
    assert!(!dry.entries[0].removed);
    assert!(!cache::check_sizes(&vec![cache_entry("a", -1)]));
    assert!(!cache::check_sizes(&vec![cache_entry("a", i64::MAX), cache_entry("b", 1)]));
}

// ---- reports --------------------------------------------------------------------

fn candidate(path: &str, size: i64) -> Candidate {
    Candidate { path: s(path), size, days_unused: 1, signal: s("filesystem"), use_count: None }
}

#[test]
fn a_scan_reports_what_could_be_freed() {
    let c = vec![candidate("/a", 30), candidate("/b", 12)];
    assert!(engine::check_candidates(&c));
    let r = engine::scan(&sample_config(), c);
    assert_eq!(r.candidate_count, 2);
    assert_eq!(r.reclaimable_bytes, 42);
    assert_eq!(r.min_size_bytes, 100);
    assert_eq!(r.min_age_days, 2);
    assert_eq!(r.roots, vec![s("/r1"), s("/r2")]);
    assert_eq!(r.candidates[1].path, "/b");
    assert!(!engine::check_candidates(&vec![candidate("/a", i64::MAX), candidate("/b", 1)]));
}

fn offloaded(path: &str, n: i64) -> StowResult<OffloadResult> {
    Ok(OffloadResult {
        path: s(path),
        hash: s("h"),
        bytes_freed: n,
        s3_key: s("k"),
        deduped: false,
        transparent: false,
    })
}

#[test]
fn an_automatic_run_goes_on_after_failures() {
    let c = vec![candidate("/a", 30), candidate("/b", 12), candidate("/c", 5)];
    let outcomes = vec![offloaded("/a", 30), Err(StowError::Network(s("down"))), offloaded("/c", 5)];
    assert!(engine::check_outcomes(&c, &outcomes));
    let r = engine::auto_offload(&c, &outcomes);
    assert_eq!(r.offloaded_count, 2);
    assert_eq!(r.bytes_freed, 35);
    assert_eq!(r.offloaded, vec![s("/a"), s("/c")]);
    assert_eq!(r.failures.len(), 1);
    assert_eq!(r.failures[0].path, "/b");
    assert_eq!(r.failures[0].error, "network error: down");
    let huge = vec![offloaded("/a", i64::MAX), offloaded("/b", 1)];
    assert!(!engine::check_outcomes(&vec![candidate("/a", 1), candidate("/b", 1)], &huge));
}

#[test]
fn status_counts_what_saves_space() {
    let mut back = record("/back", "h2", 200, 2);
    back.restored = true;
    let items = vec![record("/stub", "h1", 100, 1), back, record("/open", "h3", 400, 3), record("/link", "h4", 800, 4)];
    let stub = Probe::File { len: 9, head: Ok(b"STOW1\n".to_vec()) };
    let plain = Probe::File { len: 9, head: Ok(b"hello!".to_vec()) };
    let sights = vec![
        Sight { mirror: None, exists: true, probe: stub },
        Sight { mirror: None, exists: true, probe: plain },
        Sight { mirror: Some(false), exists: true, probe: Probe::Nothing },
        Sight {
            mirror: Some(true),
            exists: false,
            probe: Probe::Link(Some(s("/Library/CloudStorage/Stow/.in/x"))),
        },
    ];
    let folder_items = vec![FolderItem { filename: s("f"), size: 1000 }];
    assert!(engine::check_status(&items, &sights, &folder_items));
    let r = engine::status(&sample_config(), &items, &sights, folder_items, ".in");
    assert_eq!(r.bucket, "b");
    assert_eq!(r.region, "r");
    assert_eq!(r.count, 4);
    assert_eq!(r.bytes_offloaded, 1500);
    assert_eq!(r.saved_count, 3);
    assert_eq!(r.saved_bytes, 1900);
    assert_eq!(r.folder_count, 1);
    assert_eq!(r.folder_bytes, 1000);
    assert_eq!(r.folder_items[0].filename, "f");
    let present: Vec<bool> = r.items.iter().map(|i| i.present_as_placeholder).collect();
    assert_eq!(present, vec![true, false, false, false]);
    assert_eq!(r.items[0].hash, "h1");
    let items = vec![record("/a", "h", i64::MAX, 1), record("/b", "h", 1, 1)];
    let sights = vec![
        Sight { mirror: None, exists: false, probe: Probe::Nothing },
        Sight { mirror: None, exists: false, probe: Probe::Nothing },
    ];
    assert!(!engine::check_status(&items, &sights, &Vec::new()));
}

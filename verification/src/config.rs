//! Stow's configuration, the places where it keeps its files, and the names that
//! are derived from them.

use vstd::prelude::*;
use vstd::utf8::*;

use crate::cache;
use crate::error::{Fault, StowError, StowResult};
use crate::s3::Creds;
use crate::text;
use crate::text::Separator;

verus! {

pub struct Config {
    /// Bucket holding offloaded objects.
    pub bucket: String,
    /// Region of the bucket.
    pub region: String,
    /// Key prefix within the bucket.
    pub prefix: String,
    /// What may be offloaded automatically.
    pub policy: Policy,
    /// Credentials captured when Stow was set up, for processes that cannot read
    /// `~/.aws`.
    pub access_key_id: Option<String>,
    pub secret_access_key: Option<String>,
    pub session_token: Option<String>,
}

/// What `stow auto` offloads: only large files that were not used for a long time.
pub struct Policy {
    /// Minimum file size to consider.
    pub min_size_bytes: u64,
    /// A file must be untouched for at least this many days.
    pub min_age_days: u64,
    /// Directories scanned for candidates.
    pub roots: Vec<String>,
    /// Path substrings that exclude a file from consideration.
    pub excludes: Vec<String>,
    /// Scan inside hidden directories. Directories with credentials, `.git` and the
    /// trash stay excluded even when this is on.
    pub include_hidden: bool,
}

/// The content of a `Policy`.
pub struct PolicyView {
    pub min_size_bytes: u64,
    pub min_age_days: u64,
    pub roots: Seq<Seq<char>>,
    pub excludes: Seq<Seq<char>>,
    pub include_hidden: bool,
}

impl View for Policy {
    type V = PolicyView;

    open spec fn view(&self) -> PolicyView {
        PolicyView {
            min_size_bytes: self.min_size_bytes,
            min_age_days: self.min_age_days,
            roots: text::texts(self.roots@),
            excludes: text::texts(self.excludes@),
            include_hidden: self.include_hidden,
        }
    }
}

/// The content of a `Config`.
pub struct ConfigView {
    pub bucket: Seq<char>,
    pub region: Seq<char>,
    pub prefix: Seq<char>,
    pub policy: PolicyView,
    pub access_key_id: Option<Seq<char>>,
    pub secret_access_key: Option<Seq<char>>,
    pub session_token: Option<Seq<char>>,
}

impl View for Config {
    type V = ConfigView;

    open spec fn view(&self) -> ConfigView {
        ConfigView {
            bucket: self.bucket@,
            region: self.region@,
            prefix: self.prefix@,
            policy: self.policy@,
            access_key_id: text::text_opt(self.access_key_id),
            secret_access_key: text::text_opt(self.secret_access_key),
            session_token: text::text_opt(self.session_token),
        }
    }
}

impl Clone for Policy {
    fn clone(&self) -> (r: Self)
        ensures
            r@ == self@,
    {
        Policy {
            min_size_bytes: self.min_size_bytes,
            min_age_days: self.min_age_days,
            roots: text::clone_texts(&self.roots),
            excludes: text::clone_texts(&self.excludes),
            include_hidden: self.include_hidden,
        }
    }
}

impl Clone for Config {
    fn clone(&self) -> (r: Self)
        ensures
            r@ == self@,
    {
        Config {
            bucket: self.bucket.clone(),
            region: self.region.clone(),
            prefix: self.prefix.clone(),
            policy: self.policy.clone(),
            access_key_id: self.access_key_id.clone(),
            secret_access_key: self.secret_access_key.clone(),
            session_token: self.session_token.clone(),
        }
    }
}

// ---- defaults -------------------------------------------------------------------

/// Key prefix of objects that hold offloaded files.
pub fn default_prefix() -> (r: String)
    ensures
        r@ == "objects/"@,
{
    "objects/".to_owned()
}

/// Hidden directories are left alone unless asked for.
pub fn default_include_hidden() -> (r: bool)
    ensures
        r == false,
{
    false
}

/// 10 MiB: below this, offloading is not worth it.
pub fn default_min_size() -> (r: u64)
    ensures
        r == 10 * 1024 * 1024,
{
    10 * 1024 * 1024
}

/// A full quarter untouched before a file is moved.
pub fn default_min_age_days() -> (r: u64)
    ensures
        r == 90,
{
    90
}

/// The bytes of the path of the user's home directory, from `dirs::home_dir`. It depends
/// on the environment and the user database, so nothing is claimed of it.
#[verifier::external_body]
pub(crate) fn home_dir() -> (r: Option<Vec<u8>>) {
    match dirs::home_dir() {
        Some(p) => Some(p.into_os_string().into_encoded_bytes()),
        None => None,
    }
}

/// The bytes of the path of the directory for application data, from `dirs::data_dir`. It
/// depends on the environment, so nothing is claimed of it.
#[verifier::external_body]
pub(crate) fn data_dir() -> (r: Option<Vec<u8>>) {
    match dirs::data_dir() {
        Some(p) => Some(p.into_os_string().into_encoded_bytes()),
        None => None,
    }
}

/// The directories scanned by default for a given home directory: all of it.
pub open spec fn roots_under(home: Seq<char>) -> Seq<Seq<char>> {
    seq![home]
}

/// The directories scanned by default, when the home directory is `home`.
pub fn default_roots_under(home: String) -> (r: Vec<String>)
    ensures
        text::texts(r@) == roots_under(home@),
{
    let mut out: Vec<String> = Vec::new();
    out.push(home);
    assert(text::texts(out@) =~= roots_under(home@));
    out
}

/// The directories scanned by default. Without a home directory the path is empty
/// and nothing is found there.
pub fn default_roots() -> (r: Vec<String>)
    ensures
        exists|home: Seq<char>| text::texts(r@) == #[trigger] roots_under(home),
{
    let home = match home_dir() {
        Some(h) => text::lossy(h.as_slice()),
        None => String::new(),
    };
    let ghost h = home@;
    let r = default_roots_under(home);
    assert(text::texts(r@) == roots_under(h));
    r
}

/// What the paths in a known cache have in common.
pub open spec fn cache_marks() -> Seq<Seq<char>> {
    cache::known_caches().map_values(
        |k: (Seq<char>, Seq<char>, Seq<char>)| "/"@ + k.1 + "/"@,
    )
}

/// Path substrings that are never offloaded: system, application and build areas, and the
/// known caches.
pub open spec fn standard_excludes() -> Seq<Seq<char>> {
    areas() + cache_marks()
}

/// Path substrings of system, application and build areas.
pub open spec fn areas() -> Seq<Seq<char>> {
    seq![
        "/Library/"@,
        "/Applications/"@,
        "/.Trash/"@,
        "node_modules"@,
        "/.git/"@,
        "/DerivedData/"@,
        "/.venv/"@,
    ]
}

pub fn default_excludes() -> (r: Vec<String>)
    ensures
        text::texts(r@) == standard_excludes(),
{
    let mut out: Vec<String> = Vec::new();
    out.push("/Library/".to_owned());
    out.push("/Applications/".to_owned());
    out.push("/.Trash/".to_owned());
    out.push("node_modules".to_owned());
    out.push("/.git/".to_owned());
    out.push("/DerivedData/".to_owned());
    out.push("/.venv/".to_owned());
    assert(text::texts(out@) =~= areas());
    let caches = cache::known();
    let mut i: usize = 0;
    assert(cache_marks().take(0) =~= Seq::<Seq<char>>::empty());
    assert(areas() + cache_marks().take(0) =~= areas());
    while i < caches.len()
        invariant
            i <= caches.len(),
            cache::cache_texts(caches@) == cache::known_caches(),
            text::texts(out@) == areas() + cache_marks().take(i as int),
        decreases caches.len() - i,
    {
        let ghost before = out@;
        let mark = text::cat3("/", caches[i].1, "/");
        proof {
            assert(cache::cache_texts(caches@).len() == caches@.len());
            assert(cache::cache_texts(caches@)[i as int].1 == caches@[i as int].1@);
            assert(mark@ == cache_marks()[i as int]);
        }
        out.push(mark);
        i += 1;
        assert(text::texts(out@) =~= text::texts(before) + seq![mark@]);
        assert(text::texts(out@) =~= areas() + cache_marks().take(i as int));
    }
    assert(cache_marks().len() == caches@.len()) by {
        assert(cache::cache_texts(caches@).len() == caches@.len());
    }
    assert(cache_marks().take(cache_marks().len() as int) =~= cache_marks());
    out
}

/// The default policy for a given home directory.
pub open spec fn standard_policy(home: Seq<char>) -> PolicyView {
    PolicyView {
        min_size_bytes: 10_485_760,
        min_age_days: 90,
        roots: roots_under(home),
        excludes: standard_excludes(),
        include_hidden: false,
    }
}

impl Default for Policy {
    fn default() -> (r: Self)
        ensures
            exists|home: Seq<char>| r@ == #[trigger] standard_policy(home),
    {
        let roots = default_roots();
        let ghost home = choose|home: Seq<char>|
            text::texts(roots@) == #[trigger] roots_under(home);
        let r = Policy {
            min_size_bytes: default_min_size(),
            min_age_days: default_min_age_days(),
            roots,
            excludes: default_excludes(),
            include_hidden: default_include_hidden(),
        };
        assert(r@ == standard_policy(home));
        r
    }
}

// ---- paths ----------------------------------------------------------------------

/// Whether the shared container is given and not blank.
pub open spec fn names_a_dir(group_dir: Option<String>) -> bool {
    group_dir is Some && text::trimmed(group_dir->0@, Separator::Space).len() > 0
}

/// The path of the directory for Stow's files, when the shared container is `group_dir` and
/// the directory for application data is `data_dir`.
pub fn support_dir_in(group_dir: Option<String>, data_dir: Option<Vec<u8>>) -> (r: StowResult<
    Vec<u8>,
>)
    ensures
        match r {
            Ok(dir) => if names_a_dir(group_dir) {
                dir@ == encode_utf8(group_dir->0@)
            } else {
                data_dir is Some && dir@ == text::joined_bytes(
                    data_dir->0@,
                    encode_utf8("ai.exla.stow"@),
                )
            },
            Err(e) => {
                &&& !names_a_dir(group_dir)
                &&& data_dir is None
                &&& e@ == Fault::Io("cannot resolve Application Support dir"@)
            },
        },
{
    match group_dir {
        Some(dir) => {
            if !text::trim(dir.as_str(), Separator::Space).as_str().is_empty() {
                return Ok(text::bytes_of(dir.as_str().as_bytes()));
            }
        },
        None => {},
    }
    match data_dir {
        Some(base) => Ok(text::join_bytes(base.as_slice(), "ai.exla.stow".as_bytes())),
        None => Err(StowError::Io("cannot resolve Application Support dir".to_owned())),
    }
}

/// Whether `dir` is the directory for Stow's files: the shared container where one is
/// given, else a directory within the one for application data.
pub open spec fn is_support_dir(group_dir: Option<String>, dir: Seq<u8>) -> bool {
    if names_a_dir(group_dir) {
        dir == encode_utf8(group_dir->0@)
    } else {
        exists|base: Seq<u8>|
            dir == #[trigger] text::joined_bytes(base, encode_utf8("ai.exla.stow"@))
    }
}

/// Whether `path` is that of the file `name` in the directory for Stow's files.
pub open spec fn is_support_file(group_dir: Option<String>, name: Seq<char>, path: Seq<u8>) -> bool {
    exists|dir: Seq<u8>|
        #![trigger text::joined_bytes(dir, encode_utf8(name))]
        is_support_dir(group_dir, dir) && path == text::joined_bytes(dir, encode_utf8(name))
}

/// Whether an error says that there is no directory for Stow's files: none is given, and
/// there is none for application data.
pub open spec fn no_support_dir(group_dir: Option<String>, e: Fault) -> bool {
    &&& !names_a_dir(group_dir)
    &&& e == Fault::Io("cannot resolve Application Support dir"@)
}

/// The path of a file in the directory for Stow's files.
pub fn support_file(group_dir: Option<String>, name: &str) -> (r: StowResult<Vec<u8>>)
    ensures
        match r {
            Ok(path) => is_support_file(group_dir, name@, path@),
            Err(e) => no_support_dir(group_dir, e@),
        },
{
    match Config::support_dir(group_dir) {
        Ok(dir) => {
            let path = text::join_bytes(dir.as_slice(), name.as_bytes());
            assert(is_support_dir(group_dir, dir@));
            assert(path@ == text::joined_bytes(dir@, encode_utf8(name@)));
            Ok(path)
        },
        Err(e) => Err(e),
    }
}

impl Config {
    /// The directory for Stow's files. `group_dir` is the shared container that
    /// sandboxed processes are given; without one, the files are kept with the
    /// application data.
    pub fn support_dir(group_dir: Option<String>) -> (r: StowResult<Vec<u8>>)
        ensures
            match r {
                Ok(dir) => is_support_dir(group_dir, dir@),
                Err(e) => no_support_dir(group_dir, e@),
            },
    {
        support_dir_in(group_dir, data_dir())
    }

    /// Where the configuration is kept.
    pub fn config_path(group_dir: Option<String>) -> (r: StowResult<Vec<u8>>)
        ensures
            match r {
                Ok(path) => is_support_file(group_dir, "config.json"@, path@),
                Err(e) => no_support_dir(group_dir, e@),
            },
    {
        support_file(group_dir, "config.json")
    }

    /// Where the index of offloaded files is kept.
    pub fn index_path(group_dir: Option<String>) -> (r: StowResult<Vec<u8>>)
        ensures
            match r {
                Ok(path) => is_support_file(group_dir, "index.db"@, path@),
                Err(e) => no_support_dir(group_dir, e@),
            },
    {
        support_file(group_dir, "index.db")
    }

    /// The object key for a given content hash.
    pub fn object_key(&self, hash: &str) -> (r: String)
        ensures
            r@ == self@.key_for(hash@),
    {
        text::cat2(self.prefix.as_str(), hash)
    }

    /// The captured credentials, if there are any: both parts of the key must be
    /// there and not empty.
    pub fn creds(&self) -> (r: Option<Creds>)
        ensures
            match r {
                Some(c) => {
                    &&& self@.has_creds()
                    &&& c.access_key_id == self.access_key_id->0
                    &&& c.secret_access_key == self.secret_access_key->0
                    &&& c.session_token == self.session_token
                },
                None => !self@.has_creds(),
            },
    {
        match (&self.access_key_id, &self.secret_access_key) {
            (Some(ak), Some(sk)) => {
                if !ak.as_str().is_empty() && !sk.as_str().is_empty() {
                    Some(
                        Creds {
                            access_key_id: ak.clone(),
                            secret_access_key: sk.clone(),
                            session_token: self.session_token.clone(),
                        },
                    )
                } else {
                    None
                }
            },
            _ => None,
        }
    }
}

impl ConfigView {
    /// The object key for a given content hash.
    pub open spec fn key_for(self, hash: Seq<char>) -> Seq<char> {
        self.prefix + hash
    }

    /// Whether usable credentials were captured.
    pub open spec fn has_creds(self) -> bool {
        &&& self.access_key_id is Some
        &&& self.secret_access_key is Some
        &&& self.access_key_id->0.len() > 0
        &&& self.secret_access_key->0.len() > 0
    }
}

// ---- names ----------------------------------------------------------------------

/// The region to use when none is given: the first of the two settings that is
/// there, or `us-east-1`.
pub fn default_region(aws_region: Option<String>, aws_default_region: Option<String>) -> (r: String)
    ensures
        r@ == (if aws_region is Some {
            aws_region->0@
        } else if aws_default_region is Some {
            aws_default_region->0@
        } else {
            "us-east-1"@
        }),
{
    match aws_region {
        Some(x) => x,
        None => match aws_default_region {
            Some(y) => y,
            None => "us-east-1".to_owned(),
        },
    }
}

/// A character as it may stand in a bucket name.
pub open spec fn bucket_char(c: char) -> char {
    if 'A' <= c <= 'Z' {
        ((c as u8) + 32) as char
    } else if 'a' <= c <= 'z' || '0' <= c <= '9' {
        c
    } else {
        '-'
    }
}

/// The bucket name for a token.
pub open spec fn bucket_name(token: Seq<char>) -> Seq<char> {
    "stow-"@ + text::trimmed(token.map_values(|c: char| bucket_char(c)), Separator::Is('-'))
}

/// Derives a bucket name from a short account or host token.
pub fn derive_bucket_name(token: &str) -> (r: String)
    ensures
        r@ == bucket_name(token@),
{
    let v = text::chars_of(token);
    let ghost f = |c: char| bucket_char(c);
    let mut cleaned: Vec<char> = Vec::new();
    let mut i: usize = 0;
    while i < v.len()
        invariant
            i <= v.len(),
            f == (|c: char| bucket_char(c)),
            cleaned@ == v@.take(i as int).map_values(f),
        decreases v.len() - i,
    {
        let c = v[i];
        let n = if c >= 'A' && c <= 'Z' {
            (c as u8 + 32u8) as char
        } else if (c >= 'a' && c <= 'z') || (c >= '0' && c <= '9') {
            c
        } else {
            '-'
        };
        cleaned.push(n);
        i += 1;
        assert(cleaned@ =~= v@.take(i as int).map_values(f));
    }
    assert(v@.take(v@.len() as int) =~= v@);
    let inner = text::trim_chars(&cleaned, Separator::Is('-'));
    text::cat2("stow-", text::string_of(&inner).as_str())
}

/// Whether `c` may stand in the name of a bucket.
pub open spec fn is_dns_safe(c: char) -> bool {
    'a' <= c <= 'z' || '0' <= c <= '9' || c == '-'
}

/// A derived bucket name has only lowercase letters, digits and hyphens, whatever
/// the token is.
pub proof fn law_bucket_name_is_dns_safe(token: Seq<char>, i: int)
    requires
        0 <= i < bucket_name(token).len(),
    ensures
        is_dns_safe(bucket_name(token)[i]),
{
    reveal_strlit("stow-");
    let cleaned = token.map_values(|c: char| bucket_char(c));
    if i >= "stow-"@.len() {
        text::lemma_trimmed_member(cleaned, Separator::Is('-'), i - "stow-"@.len());
    }
}

/// Whether `c` is a letter or digit that is kept in a bucket name, in lowercase.
pub open spec fn is_alphanumeric(c: char) -> bool {
    'a' <= c <= 'z' || 'A' <= c <= 'Z' || '0' <= c <= '9'
}

/// A bucket may have the derived name: for a token with a letter or digit, not too long for
/// the 63 characters of a bucket name, it begins with `stow-`, ends with a letter or digit,
/// and has 6 to 63 characters.
pub proof fn law_bucket_names_can_be_used(token: Seq<char>, k: int)
    requires
        bucket_name(token).len() <= 63,
        0 <= k < token.len(),
        is_alphanumeric(token[k]),
    ensures
        "stow-"@.is_prefix_of(bucket_name(token)),
        is_alphanumeric(bucket_name(token).last()),
        6 <= bucket_name(token).len() <= 63,
{
    reveal_strlit("stow-");
    let cleaned = token.map_values(|c: char| bucket_char(c));
    let inner = text::trimmed(cleaned, Separator::Is('-'));
    assert(cleaned[k] == bucket_char(token[k]));
    text::lemma_trimmed_ends(cleaned, Separator::Is('-'), k);
    let last = bucket_name(token).len() - 1;
    assert(bucket_name(token).last() == inner.last());
    law_bucket_name_is_dns_safe(token, last);
    assert("stow-"@ =~= bucket_name(token).subrange(0, "stow-"@.len() as int));
}

/// Bucket names are stable: tokens that differ only in the case of ASCII letters and in
/// hyphens at their ends give the same name.
pub proof fn law_bucket_names_are_stable(
    a: Seq<char>,
    b: Seq<char>,
    front: Seq<char>,
    back: Seq<char>,
)
    requires
        a.len() == b.len(),
        forall|i: int| 0 <= i < a.len() ==> text::lower(#[trigger] a[i]) == text::lower(b[i]),
        forall|i: int| 0 <= i < front.len() ==> #[trigger] front[i] == '-',
        forall|i: int| 0 <= i < back.len() ==> #[trigger] back[i] == '-',
    ensures
        bucket_name(front + b + back) == bucket_name(a),
{
    let f = |c: char| bucket_char(c);
    assert forall|i: int| 0 <= i < a.len() implies bucket_char(#[trigger] a[i]) == bucket_char(
        b[i],
    ) by {
        assert(text::lower(a[i]) == text::lower(b[i]));
    }
    assert(a.map_values(f) =~= b.map_values(f));
    assert((front + b + back).map_values(f) =~= front.map_values(f) + b.map_values(f)
        + back.map_values(f));
    text::lemma_trimmed_padded(
        front.map_values(f),
        b.map_values(f),
        back.map_values(f),
        Separator::Is('-'),
    );
}

/// A token that may stand in a bucket name as it is, stands there as it is; every other
/// character becomes a hyphen.
pub proof fn law_bucket_names_keep_what_they_can(a: Seq<char>, c: char, b: Seq<char>)
    ensures
        a.len() > 0 && a[0] != '-' && a.last() != '-' && (forall|i: int|
            0 <= i < a.len() ==> 'a' <= #[trigger] a[i] <= 'z' || '0' <= a[i] <= '9' || a[i]
                == '-') ==> bucket_name(a) == "stow-"@ + a,
        !('a' <= c <= 'z') && !('A' <= c <= 'Z') && !('0' <= c <= '9') ==> bucket_name(
            a + seq![c] + b,
        ) == bucket_name(a + seq!['-'] + b),
{
    let f = |c: char| bucket_char(c);
    if a.len() > 0 && a[0] != '-' && a.last() != '-' && (forall|i: int|
        0 <= i < a.len() ==> 'a' <= #[trigger] a[i] <= 'z' || '0' <= a[i] <= '9' || a[i] == '-') {
        assert(a.map_values(f) =~= a);
    }
    if !('a' <= c <= 'z') && !('A' <= c <= 'Z') && !('0' <= c <= '9') {
        assert((a + seq![c] + b).map_values(f) =~= (a + seq!['-'] + b).map_values(f));
    }
}

/// Captured credentials are used whole, or not at all: only where both parts of the key are
/// there and not empty, and then with the session token that goes with them.
pub proof fn law_credentials_are_used_whole(cfg: ConfigView)
    ensures
        match (cfg.access_key_id, cfg.secret_access_key) {
            (Some(id), Some(secret)) => if id.len() > 0 && secret.len() > 0 {
                &&& cfg.usable_creds() is Some
                &&& cfg.usable_creds()->0.access_key_id == id
                &&& cfg.usable_creds()->0.secret_access_key == secret
                &&& cfg.usable_creds()->0.session_token == cfg.session_token
            } else {
                cfg.usable_creds() is None
            },
            _ => cfg.usable_creds() is None,
        },
        cfg.remote().bucket == cfg.bucket,
        cfg.remote().region == cfg.region,
        cfg.remote().creds == cfg.usable_creds(),
{
}

/// Checks that a path is a regular file. `is_file` is what the file system says:
/// whether there is a regular file, or why that cannot be told.
pub fn ensure_regular_file(path: &str, is_file: Result<bool, String>) -> (r: StowResult<()>)
    ensures
        match r {
            Ok(_) => is_file == Ok::<bool, String>(true),
            Err(e) => match is_file {
                Ok(b) => !b && e@ == Fault::InvalidArg(
                    path@ + " is not a regular file"@,
                ),
                Err(m) => e@ == Fault::Io(path@ + ": "@ + m@),
            },
        },
{
    match is_file {
        Err(m) => Err(StowError::Io(text::cat3(path, ": ", m.as_str()))),
        Ok(b) => if b {
            Ok(())
        } else {
            Err(StowError::InvalidArg(text::cat2(path, " is not a regular file")))
        },
    }
}

/// A shared container counts only if its name has a character that is no white space.
pub proof fn law_blank_containers_do_not_count(dir: String, k: int)
    ensures
        !names_a_dir(None),
        (forall|i: int| 0 <= i < dir@.len() ==> text::is_space(#[trigger] dir@[i])) ==> !names_a_dir(
            Some(dir),
        ),
        0 <= k < dir@.len() && !text::is_space(dir@[k]) ==> names_a_dir(Some(dir)),
{
    let sp = Separator::Space;
    let none = Seq::<char>::empty();
    if forall|i: int| 0 <= i < dir@.len() ==> text::is_space(#[trigger] dir@[i]) {
        assert forall|i: int| 0 <= i < dir@.len() implies sp.accepts(#[trigger] dir@[i]) by {
            assert(text::is_space(dir@[i]));
        }
        text::law_trimming_takes_the_ends_only(dir@, none, none, sp);
        assert(dir@ + none + none =~= dir@);
    }
    if 0 <= k < dir@.len() && !text::is_space(dir@[k]) {
        text::lemma_trimmed_ends(dir@, sp, k);
    }
}

} // verus!

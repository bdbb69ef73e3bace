//! Object storage: credentials, and the decisions around creating the bucket and
//! storing objects.

use vstd::prelude::*;

use crate::config::{Config, ConfigView};
use crate::error;
use crate::error::{Fault, StowError, StowResult};
use crate::text;

verus! {

/// Explicit AWS credentials, captured when Stow is set up so that a process that
/// cannot read `~/.aws` can use them.
#[derive(Debug)]
pub struct Creds {
    pub access_key_id: String,
    pub secret_access_key: String,
    pub session_token: Option<String>,
}

impl Clone for Creds {
    fn clone(&self) -> (r: Self)
        ensures
            r == *self,
    {
        Creds {
            access_key_id: self.access_key_id.clone(),
            secret_access_key: self.secret_access_key.clone(),
            session_token: self.session_token.clone(),
        }
    }
}

/// The content of a `Creds`.
pub struct CredsView {
    pub access_key_id: Seq<char>,
    pub secret_access_key: Seq<char>,
    pub session_token: Option<Seq<char>>,
}

impl View for Creds {
    type V = CredsView;

    open spec fn view(&self) -> CredsView {
        CredsView {
            access_key_id: self.access_key_id@,
            secret_access_key: self.secret_access_key@,
            session_token: text::text_opt(self.session_token),
        }
    }
}

/// Where objects are kept, and the credentials to get at them. Without credentials
/// the standard chain (environment, `~/.aws`, SSO) is used.
pub struct Remote {
    pub bucket: String,
    pub region: String,
    pub creds: Option<Creds>,
}

/// The content of a `Remote`.
pub struct RemoteView {
    pub bucket: Seq<char>,
    pub region: Seq<char>,
    pub creds: Option<CredsView>,
}

/// The content of credentials that may be missing.
pub open spec fn creds_opt(c: Option<Creds>) -> Option<CredsView> {
    match c {
        Some(c) => Some(c@),
        None => None,
    }
}

impl View for Remote {
    type V = RemoteView;

    open spec fn view(&self) -> RemoteView {
        RemoteView { bucket: self.bucket@, region: self.region@, creds: creds_opt(self.creds) }
    }
}

impl Clone for Remote {
    fn clone(&self) -> (r: Self)
        ensures
            r == *self,
    {
        Remote {
            bucket: self.bucket.clone(),
            region: self.region.clone(),
            creds: match &self.creds {
                Some(c) => Some(c.clone()),
                None => None,
            },
        }
    }
}

impl ConfigView {
    /// The credentials that requests are made with.
    pub open spec fn usable_creds(self) -> Option<CredsView> {
        if self.has_creds() {
            Some(
                CredsView {
                    access_key_id: self.access_key_id->0,
                    secret_access_key: self.secret_access_key->0,
                    session_token: self.session_token,
                },
            )
        } else {
            None
        }
    }

    /// Where the objects of a configuration are kept.
    pub open spec fn remote(self) -> RemoteView {
        RemoteView { bucket: self.bucket, region: self.region, creds: self.usable_creds() }
    }
}

impl Config {
    /// Where the objects of this configuration are kept.
    pub fn remote(&self) -> (r: Remote)
        ensures
            r@ == self@.remote(),
    {
        Remote { bucket: self.bucket.clone(), region: self.region.clone(), creds: self.creds() }
    }
}

/// The location to ask for when a bucket is created in a region. `us-east-1` must not
/// be named; every other region must.
pub fn bucket_location(region: &str) -> (r: Option<String>)
    ensures
        text::text_opt(r) == location_of(region@),
{
    if text::same(region, "us-east-1") {
        None
    } else {
        Some(region.to_owned())
    }
}

/// The location that a bucket in `region` is created with.
pub open spec fn location_of(region: Seq<char>) -> Option<Seq<char>> {
    if region == "us-east-1"@ {
        None
    } else {
        Some(region)
    }
}

/// Whether a refusal to create a bucket says that the bucket is there already.
pub open spec fn says_bucket_exists(m: Seq<char>) -> bool {
    text::occurs(m, "BucketAlreadyOwnedByYou"@) || text::occurs(m, "BucketAlreadyExists"@)
}

/// What the reply to a request for a new bucket amounts to.
pub open spec fn creation_outcome(bucket: Seq<char>, reply: Result<(), Seq<char>>) -> Result<
    (),
    Fault,
> {
    match reply {
        Ok(_) => Ok(()),
        Err(m) => if says_bucket_exists(m) {
            Ok(())
        } else {
            Err(Fault::Network("create bucket "@ + bucket + (": "@ + m)))
        },
    }
}

/// Judges the reply to a request for a new bucket. That the bucket is there already is
/// no failure.
pub fn bucket_created(bucket: &str, reply: Result<(), String>) -> (r: StowResult<()>)
    ensures
        error::outcome_of(r) == creation_outcome(bucket@, error::reply_of(reply)),
{
    match reply {
        Ok(_) => Ok(()),
        Err(m) => {
            if text::contains(m.as_str(), "BucketAlreadyOwnedByYou") || text::contains(
                m.as_str(),
                "BucketAlreadyExists",
            ) {
                Ok(())
            } else {
                let why = text::cat2(": ", m.as_str());
                Err(StowError::Network(text::cat3("create bucket ", bucket, why.as_str())))
            }
        },
    }
}

/// The error for a request on an object that did not get through, such as
/// `put objects/ab: timed out`.
pub fn call_failed(verb: &str, key: &str, why: &str) -> (r: StowError)
    ensures
        r@ == Fault::Network(verb@ + " "@ + key@ + (": "@ + why@)),
{
    let head = text::cat3(verb, " ", key);
    let tail = text::cat2(": ", why);
    StowError::Network(text::cat2(head.as_str(), tail.as_str()))
}

/// That a bucket is there already is no failure to make it: a refusal that says so, anywhere in
/// its text, counts as success. Every other refusal is an error that names the bucket.
pub proof fn law_existing_buckets_are_as_good_as_new(
    bucket: Seq<char>,
    a: Seq<char>,
    b: Seq<char>,
    m: Seq<char>,
)
    ensures
        creation_outcome(bucket, Ok(())) == Ok::<(), Fault>(()),
        creation_outcome(bucket, Err(a + "BucketAlreadyOwnedByYou"@ + b)) == Ok::<(), Fault>(()),
        creation_outcome(bucket, Err(a + "BucketAlreadyExists"@ + b)) == Ok::<(), Fault>(()),
        (forall|x: Seq<char>, y: Seq<char>|
            m != #[trigger] (x + "BucketAlreadyOwnedByYou"@ + y) && m
                != x + "BucketAlreadyExists"@ + y) ==> creation_outcome(bucket, Err(m)) == Err::<
            (),
            Fault,
        >(Fault::Network("create bucket "@ + bucket + ": "@ + m)),
{
    let p = "BucketAlreadyOwnedByYou"@;
    let q = "BucketAlreadyExists"@;
    let s = a + p + b;
    let t = a + q + b;
    assert(s.subrange(a.len() as int, (a.len() + p.len()) as int) =~= p);
    assert(text::occurs_at(s, p, a.len() as int));
    assert(t.subrange(a.len() as int, (a.len() + q.len()) as int) =~= q);
    assert(text::occurs_at(t, q, a.len() as int));
    if forall|x: Seq<char>, y: Seq<char>|
        m != #[trigger] (x + "BucketAlreadyOwnedByYou"@ + y) && m
            != x + "BucketAlreadyExists"@ + y {
        if text::occurs(m, p) {
            let i = choose|i: int| text::occurs_at(m, p, i);
            lemma_parted(m, p, i);
            assert(m == m.take(i) + p + m.skip(i + p.len()));
        }
        if text::occurs(m, q) {
            let i = choose|i: int| text::occurs_at(m, q, i);
            lemma_parted(m, q, i);
            let x = m.take(i);
            let y = m.skip(i + q.len());
            assert(m != x + p + y);
        }
        assert("create bucket "@ + bucket + (": "@ + m) =~= "create bucket "@ + bucket + ": "@ + m);
    }
}

proof fn lemma_parted(t: Seq<char>, x: Seq<char>, i: int)
    requires
        text::occurs_at(t, x, i),
    ensures
        t == t.take(i) + x + t.skip(i + x.len()),
{
    assert forall|j: int| 0 <= j < x.len() implies t[i + j] == x[j] by {
        assert(t.subrange(i, i + x.len())[j] == x[j]);
    }
    assert(t =~= t.take(i) + x + t.skip(i + x.len()));
}

} // verus!

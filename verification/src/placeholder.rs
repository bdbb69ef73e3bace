//! Placeholders: what stands on disk in the place of an offloaded file.
//!
//! A file is replaced either by a link into the mirror area of the Stow folder or by a
//! stub, a small file that begins with a fixed mark.

use vstd::prelude::*;

use crate::error::{Fault, StowError, StowResult};
use crate::text;

verus! {

/// The bytes that every stub begins with: `STOW1` and a line feed.
pub open spec fn magic() -> Seq<u8> {
    seq![83u8, 84u8, 79u8, 87u8, 49u8, 10u8]
}

/// How many bytes every stub begins with.
pub const MAGIC_LEN: usize = 6;

fn magic_bytes() -> (r: Vec<u8>)
    ensures
        r@ == magic(),
{
    let r: Vec<u8> = vec![83u8, 84u8, 79u8, 87u8, 49u8, 10u8];
    assert(r@ =~= magic());
    r
}

/// What is found at a path when it is looked at without following a link.
pub enum Probe {
    /// A symbolic link, with its target where that can be read.
    Link(Option<String>),
    /// A regular file, with its length and, where it is long enough to be a stub, its
    /// first bytes or why they cannot be read.
    File { len: u64, head: Result<Vec<u8>, String> },
    /// Nothing, or neither a link nor a regular file.
    Nothing,
}

/// The content of a `Probe`.
pub enum ProbeView {
    Link(Option<Seq<char>>),
    File { len: u64, head: Result<Seq<u8>, Seq<char>> },
    Nothing,
}

impl View for Probe {
    type V = ProbeView;

    open spec fn view(&self) -> ProbeView {
        match *self {
            Probe::Link(t) => ProbeView::Link(text::text_opt(t)),
            Probe::File { len, head } => ProbeView::File {
                len,
                head: crate::error::reply_of(head),
            },
            Probe::Nothing => ProbeView::Nothing,
        }
    }
}

impl ProbeView {
    /// Whether a placeholder was found. `inplace` is the name of the mirror area.
    pub open spec fn placeholder(self, inplace: Seq<char>) -> Result<bool, Fault> {
        match self {
            ProbeView::Link(Some(t)) => Ok(
                text::occurs(t, "/Library/CloudStorage/"@) && text::occurs(t, inplace),
            ),
            ProbeView::Link(None) => Ok(false),
            ProbeView::File { len, head } => if len < magic().len() {
                Ok(false)
            } else {
                match head {
                    Ok(h) => Ok(h == magic()),
                    Err(m) => Err(Fault::Io(m)),
                }
            },
            ProbeView::Nothing => Ok(false),
        }
    }
}

/// Whether a placeholder was found. `inplace` is the name of the mirror area.
pub fn is_placeholder(found: &Probe, inplace: &str) -> (r: StowResult<bool>)
    ensures
        crate::error::outcome_of(r) == found@.placeholder(inplace@),
{
    match found {
        Probe::Link(target) => match target {
            Some(t) => {
                let s = t.as_str();
                Ok(text::contains(s, "/Library/CloudStorage/") && text::contains(s, inplace))
            },
            None => Ok(false),
        },
        Probe::File { len, head } => {
            if *len < MAGIC_LEN as u64 {
                return Ok(false);
            }
            match head {
                Ok(h) => {
                    let m = magic_bytes();
                    Ok(text::same_bytes(h.as_slice(), m.as_slice()))
                },
                Err(m) => Err(StowError::Io(m.clone())),
            }
        },
        Probe::Nothing => Ok(false),
    }
}

/// What a stub says of the file in whose place it stands.
pub struct Stub {
    pub path: String,
    pub hash: String,
    pub size: i64,
    pub s3_key: String,
    pub bucket: String,
    pub region: String,
}

/// The content of a `Stub`.
pub struct StubView {
    pub path: Seq<char>,
    pub hash: Seq<char>,
    pub size: i64,
    pub s3_key: Seq<char>,
    pub bucket: Seq<char>,
    pub region: Seq<char>,
}

impl View for Stub {
    type V = StubView;

    open spec fn view(&self) -> StubView {
        StubView {
            path: self.path@,
            hash: self.hash@,
            size: self.size,
            s3_key: self.s3_key@,
            bucket: self.bucket@,
            region: self.region@,
        }
    }
}

/// The bytes of a stub whose description, as JSON, is `json`.
pub open spec fn framed(json: Seq<char>) -> Seq<u8> {
    magic() + vstd::utf8::encode_utf8(json) + seq![10u8]
}

/// The bytes of a stub whose description, as JSON, is `json`.
pub fn frame_placeholder(json: &str) -> (r: Vec<u8>)
    ensures
        r@ == framed(json@),
{
    let mut body = magic_bytes();
    let b = json.as_bytes();
    let mut i: usize = 0;
    assert(body@ =~= magic() + b@.take(0));
    while i < b.len()
        invariant
            i <= b.len(),
            body@ == magic() + b@.take(i as int),
        decreases b.len() - i,
    {
        body.push(b[i]);
        i += 1;
        assert(body@ =~= magic() + b@.take(i as int));
    }
    assert(b@.take(b@.len() as int) =~= b@);
    body.push(10u8);
    assert(body@ =~= framed(json@));
    body
}

/// A file that was replaced by a stub is known for a placeholder, whatever the stub
/// says.
pub proof fn law_a_stub_is_a_placeholder(json: Seq<char>, len: u64, inplace: Seq<char>)
    requires
        len == framed(json).len(),
    ensures
        (ProbeView::File {
            len,
            head: Ok(framed(json).take(magic().len() as int)),
        }).placeholder(inplace) == Ok::<bool, Fault>(true),
{
    assert(framed(json).take(magic().len() as int) =~= magic());
}

/// A file that begins with anything else than the mark is no placeholder.
pub proof fn law_other_files_are_no_placeholders(body: Seq<u8>, len: u64, inplace: Seq<char>)
    requires
        len == body.len(),
        !magic().is_prefix_of(body),
    ensures
        (ProbeView::File {
            len,
            head: Ok(body.take(magic().len() as int)),
        }).placeholder(inplace) == Ok::<bool, Fault>(false),
{
    if body.len() >= magic().len() && body.take(magic().len() as int) == magic() {
        assert(magic() =~= body.subrange(0, magic().len() as int));
    }
}

} // verus!

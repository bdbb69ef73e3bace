//! Archives: a directory is packed into a ZIP file, in memory.

use vstd::prelude::*;
use vstd::utf8::*;

use crate::error;
use crate::error::{Fault, StowError, StowResult};
use crate::text;

verus! {

// ---- the archive under construction -----------------------------------------------

/// A ZIP file while it is written.
#[verifier::external_body]
pub struct Archive {
    writer: zip::ZipWriter<std::io::Cursor<Vec<u8>>>,
}

/// What an archive holds, in the order in which it was added: names, each with the
/// bytes of a file, or with nothing for a directory.
pub uninterp spec fn archive_entries(a: Archive) -> Seq<(Seq<char>, Option<Seq<u8>>)>;

/// The bytes of a finished archive that holds the given entries.
pub uninterp spec fn archive_bytes(entries: Seq<(Seq<char>, Option<Seq<u8>>)>) -> Seq<u8>;

/// Whether there is an entry of a given name.
pub open spec fn has_entry(entries: Seq<(Seq<char>, Option<Seq<u8>>)>, name: Seq<char>) -> bool {
    exists|i: int| 0 <= i < entries.len() && (#[trigger] entries[i]).0 == name
}

/// Whether a name is short enough for an archive: its length is a 16-bit number.
pub open spec fn name_fits(name: Seq<char>) -> bool {
    encode_utf8(name).len() <= 65535
}

impl Archive {
    /// Begins an archive in memory with `zip::ZipWriter::new`. It holds nothing.
    #[verifier::external_body]
    fn new() -> (r: Archive)
        ensures
            archive_entries(r) == Seq::<(Seq<char>, Option<Seq<u8>>)>::empty(),
    {
        Archive { writer: zip::ZipWriter::new(std::io::Cursor::new(Vec::new())) }
    }

    /// Begins a file with `ZipWriter::start_file`: an entry without bytes, to be
    /// compressed, with room for a large size. It is refused only where there is an entry
    /// of that name; writing to memory does not fail. A name whose length is not a 16-bit
    /// number makes the call panic. Of a refusal only that it comes is claimed, not its
    /// words nor what the archive holds afterwards.
    #[verifier::external_body]
    fn start_file(&mut self, name: &str) -> (r: Result<(), String>)
        requires
            name_fits(name@),
        ensures
            has_entry(archive_entries(*old(self)), name@) ==> r is Err,
            !has_entry(archive_entries(*old(self)), name@) ==> r is Ok && archive_entries(
                *final(self),
            ) == archive_entries(*old(self)).push((name@, Some(Seq::<u8>::empty()))),
    {
        let opts = zip::write::SimpleFileOptions::default()
            .compression_method(zip::CompressionMethod::Deflated)
            .large_file(true);
        self.writer.start_file(name, opts).map_err(|e| e.to_string())
    }

    /// Gives the file that was begun last its bytes, with `Write::write_all` on the
    /// `ZipWriter`. Writing to memory does not fail.
    #[verifier::external_body]
    fn write_all(&mut self, data: &[u8]) -> (r: Result<(), String>)
        requires
            archive_entries(*old(self)).len() > 0,
            archive_entries(*old(self)).last().1 == Some(Seq::<u8>::empty()),
        ensures
            r is Ok,
            archive_entries(*final(self)) == archive_entries(*old(self)).drop_last().push(
                (archive_entries(*old(self)).last().0, Some(data@)),
            ),
    {
        std::io::Write::write_all(&mut self.writer, data).map_err(|e| e.to_string())
    }

    /// Adds a directory with `ZipWriter::add_directory`, which takes a name that ends with
    /// a slash as it is. It is refused only where there is an entry of that name. A name
    /// whose length is not a 16-bit number makes the call panic. Of a refusal only that
    /// it comes is claimed.
    #[verifier::external_body]
    fn add_directory(&mut self, name: &str) -> (r: Result<(), String>)
        requires
            name_fits(name@),
            name@.len() > 0,
            name@.last() == '/',
        ensures
            has_entry(archive_entries(*old(self)), name@) ==> r is Err,
            !has_entry(archive_entries(*old(self)), name@) ==> r is Ok && archive_entries(
                *final(self),
            ) == archive_entries(*old(self)).push((name@, None::<Seq<u8>>)),
    {
        let opts = zip::write::SimpleFileOptions::default()
            .compression_method(zip::CompressionMethod::Deflated)
            .large_file(true);
        self.writer.add_directory(name, opts).map_err(|e| e.to_string())
    }

    /// Completes the archive with `ZipWriter::finish`. Entries carry a fixed date and are
    /// compressed by an algorithm without chance, so the bytes depend on the entries
    /// alone. Writing to memory does not fail.
    #[verifier::external_body]
    fn finish(self) -> (r: Result<Vec<u8>, String>)
        ensures
            r is Ok,
            r->Ok_0@ == archive_bytes(archive_entries(self)),
    {
        match self.writer.finish() {
            Ok(c) => Ok(c.into_inner()),
            Err(e) => Err(e.to_string()),
        }
    }
}

// ---- packing a directory ------------------------------------------------------------

/// One entry that was come by on a walk through a directory. `rel` is its place within
/// the directory: empty for the directory itself.
pub enum Walked {
    /// What could not be looked at, and why.
    Failed(String),
    Directory { rel: String },
    /// A regular file, with its bytes or why they cannot be read.
    File { rel: String, path: String, data: Result<Vec<u8>, String> },
    /// Neither a directory nor a regular file.
    Other,
}

/// The content of a `Walked`.
pub enum WalkedView {
    Failed(Seq<char>),
    Directory { rel: Seq<char> },
    File { rel: Seq<char>, path: Seq<char>, data: Result<Seq<u8>, Seq<char>> },
    Other,
}

impl View for Walked {
    type V = WalkedView;

    open spec fn view(&self) -> WalkedView {
        match *self {
            Walked::Failed(m) => WalkedView::Failed(m@),
            Walked::Directory { rel } => WalkedView::Directory { rel: rel@ },
            Walked::File { rel, path, data } => WalkedView::File {
                rel: rel@,
                path: path@,
                data: error::reply_of(data),
            },
            Walked::Other => WalkedView::Other,
        }
    }
}

/// The content of a walk.
pub open spec fn walk_of(walk: Seq<Walked>) -> Seq<WalkedView> {
    walk.map_values(|w: Walked| w@)
}

/// Whether the entry at a place goes into the archive: not the directory itself, and
/// nothing of the mirror area, which is never published.
pub open spec fn packable(rel: Seq<char>, inplace: Seq<char>) -> bool {
    rel.len() > 0 && !inplace.is_prefix_of(rel)
}

/// Whether the entry at a place goes into the archive. Only then need a file be read.
pub fn is_packable(rel: &str, inplace: &str) -> (r: bool)
    ensures
        r == packable(rel@, inplace@),
{
    !rel.is_empty() && !text::starts_with(rel, inplace)
}

/// Why a directory cannot be packed.
pub enum PackFault {
    /// Something cannot be read: a message.
    Read(Seq<char>),
    /// The archive refuses an entry.
    Refused,
}

/// The archive's entries, after one more entry was come by.
pub open spec fn packed_with(
    entries: Seq<(Seq<char>, Option<Seq<u8>>)>,
    w: WalkedView,
    inplace: Seq<char>,
) -> Result<Seq<(Seq<char>, Option<Seq<u8>>)>, PackFault> {
    match w {
        WalkedView::Failed(m) => Err(PackFault::Read(m)),
        WalkedView::Other => Ok(entries),
        WalkedView::Directory { rel } => if !packable(rel, inplace) {
            Ok(entries)
        } else if has_entry(entries, rel + "/"@) {
            Err(PackFault::Refused)
        } else {
            Ok(entries.push((rel + "/"@, None)))
        },
        WalkedView::File { rel, path, data } => if !packable(rel, inplace) {
            Ok(entries)
        } else {
            match data {
                Err(m) => Err(PackFault::Read(path + ": "@ + m)),
                Ok(d) => if has_entry(entries, rel) {
                    Err(PackFault::Refused)
                } else {
                    Ok(entries.push((rel, Some(d))))
                },
            }
        },
    }
}

/// The archive's entries after a walk, or why it cannot be packed.
pub open spec fn packed(walk: Seq<WalkedView>, inplace: Seq<char>) -> Result<
    Seq<(Seq<char>, Option<Seq<u8>>)>,
    PackFault,
>
    decreases walk.len(),
{
    if walk.len() == 0 {
        Ok(Seq::empty())
    } else {
        match packed(walk.drop_last(), inplace) {
            Err(f) => Err(f),
            Ok(entries) => packed_with(entries, walk.last(), inplace),
        }
    }
}

/// How many of some entries are files.
pub open spec fn files_in(entries: Seq<(Seq<char>, Option<Seq<u8>>)>) -> nat {
    entries.filter(|e: (Seq<char>, Option<Seq<u8>>)| e.1 is Some).len()
}

/// Whether the name of an entry, where it goes into the archive, is short enough for it.
pub open spec fn entry_fits(w: WalkedView, inplace: Seq<char>) -> bool {
    match w {
        WalkedView::Directory { rel } => packable(rel, inplace) ==> name_fits(rel + "/"@),
        WalkedView::File { rel, path, data } => packable(rel, inplace) ==> name_fits(rel),
        _ => true,
    }
}

/// Whether all names of a walk that go into the archive are short enough for it.
pub open spec fn names_fit(walk: Seq<WalkedView>, inplace: Seq<char>) -> bool {
    forall|i: int| 0 <= i < walk.len() ==> entry_fits(#[trigger] walk[i], inplace)
}

/// Tells whether all names of a walk that go into the archive are short enough for it.
pub fn check_names(walk: &Vec<Walked>, inplace: &str) -> (r: bool)
    ensures
        r == names_fit(walk_of(walk@), inplace@),
{
    let mut i: usize = 0;
    while i < walk.len()
        invariant
            i <= walk.len(),
            forall|j: int| 0 <= j < i ==> entry_fits(#[trigger] walk_of(walk@)[j], inplace@),
        decreases walk.len() - i,
    {
        assert(walk_of(walk@)[i as int] == walk@[i as int]@);
        let fits = match &walk[i] {
            Walked::Directory { rel } => {
                let name = text::cat2(rel.as_str(), "/");
                !is_packable(rel.as_str(), inplace) || name.as_str().as_bytes().len() <= 65535
            },
            Walked::File { rel, path: _, data: _ } => !is_packable(rel.as_str(), inplace)
                || rel.as_str().as_bytes().len() <= 65535,
            _ => true,
        };
        if !fits {
            return false;
        }
        i += 1;
    }
    true
}

impl Archive {
    /// Adds what was come by.
    fn pack(&mut self, w: &Walked, inplace: &str) -> (r: StowResult<bool>)
        requires
            entry_fits(w@, inplace@),
        ensures
            match packed_with(archive_entries(*old(self)), w@, inplace@) {
                Ok(entries) => {
                    &&& archive_entries(*final(self)) == entries
                    &&& r == Ok::<bool, StowError>(
                        files_in(entries) > files_in(archive_entries(*old(self))),
                    )
                    &&& files_in(entries) == files_in(archive_entries(*old(self))) + (if r->Ok_0 {
                        1nat
                    } else {
                        0nat
                    })
                },
                Err(PackFault::Read(m)) => r is Err && r->Err_0@ == Fault::Io(m),
                Err(PackFault::Refused) => r is Err && r->Err_0@ is Io,
            },
    {
        let ghost before = archive_entries(*self);
        let ghost is_file = |e: (Seq<char>, Option<Seq<u8>>)| e.1 is Some;
        match w {
            Walked::Failed(m) => Err(StowError::Io(m.clone())),
            Walked::Other => Ok(false),
            Walked::Directory { rel } => {
                if !is_packable(rel.as_str(), inplace) {
                    return Ok(false);
                }
                let name = text::cat2(rel.as_str(), "/");
                proof {
                    reveal_strlit("/");
                    assert(name@.last() == '/');
                    crate::lists::lemma_filter_push(before, (name@, None::<Seq<u8>>), is_file);
                }
                match self.add_directory(name.as_str()) {
                    Ok(_) => Ok(false),
                    Err(m) => Err(StowError::Io(m)),
                }
            },
            Walked::File { rel, path, data } => {
                if !is_packable(rel.as_str(), inplace) {
                    return Ok(false);
                }
                match data {
                    Err(m) => Err(
                        StowError::Io(text::cat3(path.as_str(), ": ", m.as_str())),
                    ),
                    Ok(d) => {
                        match self.start_file(rel.as_str()) {
                            Err(m) => {
                                return Err(StowError::Io(m));
                            },
                            Ok(_) => {},
                        }
                        proof {
                            let opened = before.push((rel@, Some(Seq::<u8>::empty())));
                            assert(archive_entries(*self) == opened);
                            assert(opened.drop_last() =~= before);
                            crate::lists::lemma_filter_push(before, (rel@, Some(d@)), is_file);
                        }
                        match self.write_all(d.as_slice()) {
                            Ok(_) => Ok(true),
                            Err(m) => Err(StowError::Io(m)),
                        }
                    },
                }
            },
        }
    }
}

/// Packs what was come by on a walk through a directory. Gives the bytes of the archive
/// and the number of files in it.
pub fn zip_dir(walk: &Vec<Walked>, inplace: &str) -> (r: StowResult<(Vec<u8>, usize)>)
    requires
        names_fit(walk_of(walk@), inplace@),
    ensures
        match packed(walk_of(walk@), inplace@) {
            Ok(entries) => {
                &&& r is Ok
                &&& r->Ok_0.0@ == archive_bytes(entries)
                &&& r->Ok_0.1 == files_in(entries)
            },
            Err(PackFault::Read(m)) => r is Err && r->Err_0@ == Fault::Io(m),
            Err(PackFault::Refused) => r is Err && r->Err_0@ is Io,
        },
{
    let ghost all = walk_of(walk@);
    let mut archive = Archive::new();
    let mut count: usize = 0;
    let mut i: usize = 0;
    assert(files_in(Seq::empty()) == 0);
    assert(all.take(0) =~= Seq::<WalkedView>::empty());
    while i < walk.len()
        invariant
            i <= walk.len(),
            count <= i,
            all == walk_of(walk@),
            names_fit(all, inplace@),
            packed(all.take(i as int), inplace@) == Ok::<
                Seq<(Seq<char>, Option<Seq<u8>>)>,
                PackFault,
            >(archive_entries(archive)),
            count == files_in(archive_entries(archive)),
        decreases walk.len() - i,
    {
        assert(all[i as int] == walk@[i as int]@);
        assert(all.take(i + 1).drop_last() =~= all.take(i as int));
        match archive.pack(&walk[i], inplace) {
            Ok(is_file) => {
                if is_file {
                    count += 1;
                }
            },
            Err(e) => {
                proof {
                    lemma_packed_stops(all, i + 1, inplace@);
                }
                return Err(e);
            },
        }
        i += 1;
    }
    assert(all.take(all.len() as int) =~= all);
    match archive.finish() {
        Ok(bytes) => Ok((bytes, count)),
        Err(m) => Err(StowError::Io(m)),
    }
}

/// A walk that cannot be packed up to some point cannot be packed for the same reason.
proof fn lemma_packed_stops(walk: Seq<WalkedView>, n: int, inplace: Seq<char>)
    requires
        0 <= n <= walk.len(),
        packed(walk.take(n), inplace) is Err,
    ensures
        packed(walk, inplace) == packed(walk.take(n), inplace),
    decreases walk.len() - n,
{
    if n < walk.len() {
        assert(walk.take(n + 1).drop_last() =~= walk.take(n));
        lemma_packed_stops(walk, n + 1, inplace);
    } else {
        assert(walk.take(n) =~= walk);
    }
}

/// Nothing of the mirror area is ever published: no entry's name begins with its name.
pub proof fn law_the_mirror_area_is_not_packed(
    walk: Seq<WalkedView>,
    inplace: Seq<char>,
    i: int,
)
    requires
        packed(walk, inplace) is Ok,
        0 <= i < packed(walk, inplace)->Ok_0.len(),
        inplace.len() > 0,
        inplace.last() != '/',
    ensures
        !inplace.is_prefix_of(packed(walk, inplace)->Ok_0[i].0),
    decreases walk.len(),
{
    let front = packed(walk.drop_last(), inplace);
    let entries = packed(walk, inplace)->Ok_0;
    if i < front->Ok_0.len() {
        law_the_mirror_area_is_not_packed(walk.drop_last(), inplace, i);
    } else {
        match walk.last() {
            WalkedView::Directory { rel } => {
                reveal_strlit("/");
                let name = rel + "/"@;
                if inplace.is_prefix_of(name) {
                    assert(inplace.len() <= name.len());
                    if inplace.len() == name.len() {
                        assert(inplace.last() == name.last());
                    } else {
                        assert(inplace =~= rel.subrange(0, inplace.len() as int)) by {
                            assert(inplace =~= name.subrange(0, inplace.len() as int));
                        }
                    }
                }
            },
            _ => {},
        }
    }
}

/// Every file that is come by goes into the archive with its bytes, unless it is in the
/// mirror area.
pub proof fn law_every_file_is_packed(walk: Seq<WalkedView>, inplace: Seq<char>, i: int)
    requires
        packed(walk, inplace) is Ok,
        0 <= i < walk.len(),
    ensures
        match walk[i] {
            WalkedView::File { rel, path, data } => packable(rel, inplace) ==> {
                &&& data is Ok
                &&& packed(walk, inplace)->Ok_0.contains((rel, Some(data->Ok_0)))
            },
            _ => true,
        },
    decreases walk.len(),
{
    let front = packed(walk.drop_last(), inplace)->Ok_0;
    let entries = packed(walk, inplace)->Ok_0;
    if i < walk.len() - 1 {
        law_every_file_is_packed(walk.drop_last(), inplace, i);
        match walk[i] {
            WalkedView::File { rel, path, data } => {
                if packable(rel, inplace) {
                    let e = (rel, Some(data->Ok_0));
                    let k = choose|k: int| 0 <= k < front.len() && front[k] == e;
                    assert(entries[k] == e);
                }
            },
            _ => {},
        }
    } else {
        match walk[i] {
            WalkedView::File { rel, path, data } => {
                if packable(rel, inplace) {
                    assert(entries[front.len() as int] == (rel, Some(data->Ok_0)));
                }
            },
            _ => {},
        }
    }
}

/// A file that is come by anywhere but in the mirror area goes into the archive under its own
/// place, with its bytes; a directory does so too, with a slash after its place. What is come
/// by in the mirror area, and the directory itself, change nothing.
pub proof fn law_what_is_come_by_is_packed(
    walk: Seq<WalkedView>,
    inplace: Seq<char>,
    rel: Seq<char>,
    path: Seq<char>,
    data: Seq<u8>,
    inside: Seq<char>,
)
    requires
        packed(walk, inplace) is Ok,
        rel.len() > 0,
        forall|x: Seq<char>| rel != #[trigger] (inplace + x),
        !has_entry(packed(walk, inplace)->Ok_0, rel),
        !has_entry(packed(walk, inplace)->Ok_0, rel + "/"@),
    ensures
        ({
            let entries = packed(walk, inplace)->Ok_0;
            let file = |r: Seq<char>| WalkedView::File { rel: r, path, data: Ok(data) };
            let dir = |r: Seq<char>| WalkedView::Directory { rel: r };
            &&& packed(walk.push(file(rel)), inplace) is Ok
            &&& packed(walk.push(file(rel)), inplace)->Ok_0 == entries.push((rel, Some(data)))
            &&& packed(walk.push(dir(rel)), inplace) is Ok
            &&& packed(walk.push(dir(rel)), inplace)->Ok_0 == entries.push((rel + "/"@, None))
            &&& packed(walk.push(file(inplace + inside)), inplace) is Ok
            &&& packed(walk.push(file(inplace + inside)), inplace)->Ok_0 == entries
            &&& packed(walk.push(dir(inplace + inside)), inplace) is Ok
            &&& packed(walk.push(dir(inplace + inside)), inplace)->Ok_0 == entries
            &&& packed(walk.push(dir(Seq::empty())), inplace) is Ok
            &&& packed(walk.push(dir(Seq::empty())), inplace)->Ok_0 == entries
            &&& packed(walk.push(WalkedView::Other), inplace) is Ok
            &&& packed(walk.push(WalkedView::Other), inplace)->Ok_0 == entries
        }),
{
    assert forall|w: WalkedView| (#[trigger] walk.push(w)).drop_last() == walk by {
        assert(walk.push(w).drop_last() =~= walk);
    }
    if inplace.is_prefix_of(rel) {
        let x = rel.skip(inplace.len() as int);
        assert(inplace =~= rel.subrange(0, inplace.len() as int));
        assert(rel =~= inplace + x);
    }
    let hidden = inplace + inside;
    assert(inplace =~= hidden.subrange(0, inplace.len() as int));
    assert(inplace.is_prefix_of(hidden));
}

/// What cannot be read stops the packing, with the reason; once stopped, it stays so.
pub proof fn law_unreadable_files_stop_the_packing(
    walk: Seq<WalkedView>,
    inplace: Seq<char>,
    rel: Seq<char>,
    path: Seq<char>,
    why: Seq<char>,
    w: WalkedView,
)
    requires
        rel.len() > 0,
        forall|x: Seq<char>| rel != #[trigger] (inplace + x),
    ensures
        packed(walk, inplace) is Ok ==> {
            &&& packed(walk.push(WalkedView::Failed(why)), inplace) == Err::<
                Seq<(Seq<char>, Option<Seq<u8>>)>,
                PackFault,
            >(PackFault::Read(why))
            &&& packed(
                walk.push(WalkedView::File { rel, path, data: Err(why) }),
                inplace,
            ) == Err::<Seq<(Seq<char>, Option<Seq<u8>>)>, PackFault>(
                PackFault::Read(path + ": "@ + why),
            )
        },
        packed(walk, inplace) is Err ==> packed(walk.push(w), inplace) is Err
            && packed(walk.push(w), inplace)->Err_0 == packed(walk, inplace)->Err_0,
{
    assert forall|w: WalkedView| (#[trigger] walk.push(w)).drop_last() == walk by {
        assert(walk.push(w).drop_last() =~= walk);
    }
    if inplace.is_prefix_of(rel) {
        let x = rel.skip(inplace.len() as int);
        assert(inplace =~= rel.subrange(0, inplace.len() as int));
        assert(rel =~= inplace + x);
    }
}

/// Every entry of the archive is a file or directory that was come by.
pub proof fn law_nothing_else_is_packed(walk: Seq<WalkedView>, inplace: Seq<char>, k: int)
    requires
        packed(walk, inplace) is Ok,
        0 <= k < packed(walk, inplace)->Ok_0.len(),
    ensures
        ({
            let e = packed(walk, inplace)->Ok_0[k];
            exists|i: int|
                0 <= i < walk.len() && match #[trigger] walk[i] {
                    WalkedView::File { rel, path, data } => e.0 == rel && data is Ok && e.1
                        == Some(data->Ok_0),
                    WalkedView::Directory { rel } => e.0 == rel + "/"@ && e.1 is None,
                    _ => false,
                }
        }),
    decreases walk.len(),
{
    let front = packed(walk.drop_last(), inplace)->Ok_0;
    let e = packed(walk, inplace)->Ok_0[k];
    if k < front.len() {
        law_nothing_else_is_packed(walk.drop_last(), inplace, k);
        assert(front[k] == e);
        let i = choose|i: int|
            0 <= i < walk.drop_last().len() && match #[trigger] walk.drop_last()[i] {
                WalkedView::File { rel, path, data } => e.0 == rel && data is Ok && e.1 == Some(
                    data->Ok_0,
                ),
                WalkedView::Directory { rel } => e.0 == rel + "/"@ && e.1 is None,
                _ => false,
            };
        assert(walk[i] == walk.drop_last()[i]);
    } else {
        assert(walk[walk.len() - 1] == walk.last());
    }
}

/// One more file in an archive is counted, one more directory is not.
pub proof fn law_only_files_are_counted(
    entries: Seq<(Seq<char>, Option<Seq<u8>>)>,
    name: Seq<char>,
    data: Seq<u8>,
)
    ensures
        files_in(Seq::empty()) == 0,
        files_in(entries.push((name, Some(data)))) == files_in(entries) + 1,
        files_in(entries.push((name, None))) == files_in(entries),
{
    let is_file = |e: (Seq<char>, Option<Seq<u8>>)| e.1 is Some;
    let none = Seq::<(Seq<char>, Option<Seq<u8>>)>::empty();
    crate::lists::lemma_filter_ends(none, is_file);
    assert(none.take(0) =~= none);
    crate::lists::lemma_filter_push(entries, (name, Some(data)), is_file);
    crate::lists::lemma_filter_push(entries, (name, None), is_file);
}

} // verus!

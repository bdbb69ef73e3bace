//! Paths: the Stow folder's mount, places within it, and names taken from paths.

use vstd::prelude::*;
use vstd::utf8::*;

use crate::config;
use crate::lists;
use crate::text;
use crate::text::Separator;

verus! {

/// The part of a path that every place in a cloud folder has.
pub open spec fn cloud_marker() -> Seq<char> {
    "/Library/CloudStorage/"@
}

/// Whether `i` is the first position at which `needle` occurs in `hay`.
pub open spec fn is_first(hay: Seq<char>, needle: Seq<char>, i: int) -> bool {
    &&& text::occurs_at(hay, needle, i)
    &&& forall|j: int| 0 <= j < i ==> !text::occurs_at(hay, needle, j)
}

/// Whether a directory name is that of the Stow folder's mount.
pub open spec fn is_mount(name: Seq<char>) -> bool {
    name == "Stow"@ || "-Stow"@.is_suffix_of(name)
}

/// Whether a directory name is that of the Stow folder's mount.
pub fn is_stow_mount(name: &str) -> (r: bool)
    ensures
        r == is_mount(name@),
{
    text::same(name, "Stow") || text::ends_with(name, "-Stow")
}

/// The names of the directories below the cloud folders that a path goes through: the
/// mount first.
pub open spec fn below_marker(path: Seq<char>) -> Seq<Seq<char>> {
    let i = choose|i: int| is_first(path, cloud_marker(), i);
    text::words(path.skip(i + cloud_marker().len()), Separator::Is('/'))
}

/// Whether a path lies in the Stow folder, or is that folder.
pub open spec fn in_stow_folder(path: Seq<char>) -> bool {
    &&& text::occurs(path, cloud_marker())
    &&& below_marker(path).len() > 0
    &&& is_mount(below_marker(path)[0])
}

/// The place of a path in the Stow folder: the names on the way from its root, or
/// `None` where the path lies elsewhere.
pub open spec fn relative(path: Seq<char>) -> Option<Seq<Seq<char>>> {
    if in_stow_folder(path) {
        Some(below_marker(path).drop_first())
    } else {
        None
    }
}

proof fn lemma_first_unique(hay: Seq<char>, needle: Seq<char>, i: int, j: int)
    requires
        is_first(hay, needle, i),
        is_first(hay, needle, j),
    ensures
        i == j,
{
}

/// The place of a path in the Stow folder: the names on the way from its root, or
/// `None` where the path lies elsewhere.
pub fn fp_relative(path: &str) -> (r: Option<Vec<String>>)
    ensures
        match r {
            Some(names) => relative(path@) == Some(text::texts(names@)),
            None => relative(path@) is None,
        },
{
    let p = text::chars_of(path);
    let marker = text::chars_of("/Library/CloudStorage/");
    match text::find(&p, &marker) {
        None => None,
        Some(i) => {
            proof {
                assert(is_first(p@, marker@, i as int));
                let c = choose|c: int| is_first(path@, cloud_marker(), c);
                lemma_first_unique(p@, marker@, i as int, c);
                assert(text::occurs(path@, cloud_marker()));
                assert(i + marker.len() <= p.len());
            }
            let from: usize = i + marker.len();
            let rest = text::sub_chars(&p, from, p.len());
            assert(rest@ =~= path@.skip(from as int));
            let all = text::split_words(text::string_of(&rest).as_str(), Separator::Is('/'));
            let ghost below = below_marker(path@);
            assert(text::texts(all@) == below);
            assert(all@.len() == below.len());
            if all.len() == 0 {
                return None;
            }
            assert(below[0] == all@[0]@);
            if !is_stow_mount(all[0].as_str()) {
                return None;
            }
            let mut out: Vec<String> = Vec::new();
            let mut k: usize = 1;
            assert(text::texts(out@) =~= below.subrange(1, 1));
            while k < all.len()
                invariant
                    1 <= k <= all.len(),
                    below == text::texts(all@),
                    text::texts(out@) == below.subrange(1, k as int),
                decreases all.len() - k,
            {
                let ghost before = out@;
                out.push(all[k].clone());
                k += 1;
                assert(below[k - 1] == all@[k - 1]@);
                assert(text::texts(out@) =~= text::texts(before).push(below[k - 1]));
                assert(text::texts(out@) =~= below.subrange(1, k as int));
            }
            assert(below.subrange(1, below.len() as int) =~= below.drop_first());
            Some(out)
        },
    }
}

/// The parts of a path that name something: neither empty nor a single dot.
pub open spec fn named_parts(path: Seq<char>) -> Seq<Seq<char>> {
    text::words(path, Separator::Is('/')).filter(|w: Seq<char>| w != "."@)
}

/// The last name of a path; `file` where a path has none, or ends by going up.
pub open spec fn last_name(path: Seq<char>) -> Seq<char> {
    let parts = named_parts(path);
    if parts.len() == 0 || parts.last() == ".."@ {
        "file"@
    } else {
        parts.last()
    }
}

/// The last name of a path; `file` where a path has none, or ends by going up.
pub fn base_name(path: &str) -> (r: String)
    ensures
        r@ == last_name(path@),
{
    let all = text::split_words(path, Separator::Is('/'));
    let ghost words = text::words(path@, Separator::Is('/'));
    let ghost keep = |w: Seq<char>| w != "."@;
    let mut last: Option<String> = None;
    let mut i: usize = 0;
    proof {
        lists::lemma_filter_ends(words, keep);
        assert(all@.len() == words.len());
    }
    while i < all.len()
        invariant
            i <= all.len(),
            words == text::texts(all@),
            all@.len() == words.len(),
            keep == (|w: Seq<char>| w != "."@),
            match last {
                Some(x) => words.take(i as int).filter(keep).len() > 0 && x@ == words.take(
                    i as int,
                ).filter(keep).last(),
                None => words.take(i as int).filter(keep).len() == 0,
            },
        decreases all.len() - i,
    {
        proof {
            lists::lemma_filter_take(words, i as int, keep);
            assert(words[i as int] == all@[i as int]@);
        }
        if !text::same(all[i].as_str(), ".") {
            last = Some(all[i].clone());
        }
        i += 1;
    }
    proof {
        lists::lemma_filter_ends(words, keep);
        assert(words.filter(keep) == named_parts(path@));
    }
    match last {
        Some(x) => if text::same(x.as_str(), "..") {
            "file".to_owned()
        } else {
            x
        },
        None => "file".to_owned(),
    }
}

/// The directory of the cloud folders, when the home directory is `home`.
pub fn cloudstorage_in(home: Option<Vec<u8>>) -> (r: Option<Vec<u8>>)
    ensures
        text::bytes_opt(r) == match home {
            Some(h) => Some(text::joined_bytes(h@, encode_utf8("Library/CloudStorage"@))),
            None => None,
        },
{
    match home {
        Some(h) => Some(text::join_bytes(h.as_slice(), "Library/CloudStorage".as_bytes())),
        None => None,
    }
}

/// The directory of the cloud folders; `None` where there is no home directory.
pub fn cloudstorage_dir() -> (r: Option<Vec<u8>>)
    ensures
        r matches Some(d) ==> exists|home: Seq<u8>|
            d@ == #[trigger] text::joined_bytes(home, encode_utf8("Library/CloudStorage"@)),
{
    cloudstorage_in(config::home_dir())
}

/// Whether entry `i` is the first of `names` that is the Stow folder's mount.
pub open spec fn is_first_mount(names: Seq<Seq<u8>>, i: int) -> bool {
    &&& 0 <= i < names.len()
    &&& is_mount(text::utf8_lossy(names[i]))
    &&& forall|j: int| 0 <= j < i ==> !is_mount(text::utf8_lossy(#[trigger] names[j]))
}

/// Where the Stow folder is mounted: the first entry of the directory `dir` of cloud
/// folders that is its mount.
pub fn cloudstorage_root(dir: &[u8], names: &Vec<Vec<u8>>) -> (r: Option<Vec<u8>>)
    ensures
        match r {
            Some(p) => exists|i: int|
                #[trigger] is_first_mount(text::raws(names@), i) && p@ == text::joined_bytes(
                    dir@,
                    text::raws(names@)[i],
                ),
            None => forall|i: int|
                0 <= i < names@.len() ==> !is_mount(
                    text::utf8_lossy(#[trigger] text::raws(names@)[i]),
                ),
        },
{
    let mut i: usize = 0;
    while i < names.len()
        invariant
            i <= names.len(),
            forall|j: int|
                0 <= j < i ==> !is_mount(text::utf8_lossy(#[trigger] text::raws(names@)[j])),
        decreases names.len() - i,
    {
        assert(text::raws(names@)[i as int] == names@[i as int]@);
        let name = text::lossy(names[i].as_slice());
        if is_stow_mount(name.as_str()) {
            assert(is_first_mount(text::raws(names@), i as int));
            return Some(text::join_bytes(dir, names[i].as_slice()));
        }
        i += 1;
    }
    None
}

// ---- places beside a file -----------------------------------------------------------

/// The directory part of a path: all of it up to the last slash, with the slash.
pub open spec fn dir_part(path: Seq<char>) -> Seq<char>
    decreases path.len(),
{
    if path.len() == 0 || path.last() == '/' {
        path
    } else {
        dir_part(path.drop_last())
    }
}

/// The `n`th name beside a file for what is to replace it.
pub open spec fn beside(path: Seq<char>, n: u32) -> Seq<char> {
    dir_part(path) + ".stow-"@ + text::dec(n as int)
}

/// The `n`th name beside a file for what is to replace it. It is short, so that it fits
/// wherever the directory does.
pub fn beside_path(path: &str, n: u32) -> (r: String)
    ensures
        r@ == beside(path@, n),
{
    let mut v = text::chars_of(path);
    while v.len() > 0 && v[v.len() - 1] != '/'
        invariant
            dir_part(v@) == dir_part(path@),
        decreases v.len(),
    {
        let ghost before = v@;
        v.pop();
        assert(v@ =~= before.drop_last());
    }
    let dir = text::string_of(&v);
    let count = text::format_u64(n as u64);
    text::cat3(dir.as_str(), ".stow-", count.as_str())
}

// ---- what paths tell ----------------------------------------------------------------

proof fn lemma_unbroken(name: Seq<char>)
    requires
        !name.contains('/'),
    ensures
        forall|i: int| 0 <= i < name.len() ==> !Separator::Is('/').accepts(#[trigger] name[i]),
{
    assert forall|i: int| 0 <= i < name.len() implies !Separator::Is('/').accepts(
        #[trigger] name[i],
    ) by {
        assert(name.contains(name[i]));
    }
}

/// A name appended to a path is its last word.
proof fn lemma_words_of(dir: Seq<char>, name: Seq<char>)
    requires
        !name.contains('/'),
    ensures
        text::words(dir + "/"@ + name, Separator::Is('/')) == if name.len() > 0 {
            text::words(dir, Separator::Is('/')).push(name)
        } else {
            text::words(dir, Separator::Is('/'))
        },
{
    reveal_strlit("/");
    assert("/"@ =~= seq!['/']);
    lemma_unbroken(name);
    text::law_separators_part_the_words(dir, '/', name, Separator::Is('/'));
    let w = text::words(dir, Separator::Is('/'));
    assert(w + seq![name] =~= w.push(name));
    assert(w + Seq::<Seq<char>>::empty() =~= w);
}

/// The last name of a path is what follows its last slash. A slash or a single dot at the end
/// names nothing, and a path that ends by going up has no name of its own.
pub proof fn law_the_last_name_ends_the_path(dir: Seq<char>, name: Seq<char>)
    requires
        !name.contains('/'),
    ensures
        name.len() > 0 && name != "."@ && name != ".."@ ==> last_name(dir + "/"@ + name) == name,
        last_name(dir + "/"@) == last_name(dir),
        last_name(dir + "/"@ + "."@) == last_name(dir),
        last_name(dir + "/"@ + ".."@) == "file"@,
        name.len() > 0 && name != "."@ && name != ".."@ ==> last_name(name) == name,
        last_name(Seq::empty()) == "file"@,
{
    reveal_strlit("/");
    reveal_strlit(".");
    reveal_strlit("..");
    let sep = Separator::Is('/');
    let keep = |w: Seq<char>| w != "."@;
    let none = Seq::<char>::empty();
    let w = text::words(dir, sep);
    lemma_words_of(dir, name);
    lists::lemma_filter_push(w, name, keep);
    assert(!none.contains('/'));
    lemma_words_of(dir, none);
    assert(dir + "/"@ + none =~= dir + "/"@);
    assert(!"."@.contains('/'));
    lemma_words_of(dir, "."@);
    lists::lemma_filter_push(w, "."@, keep);
    assert(!".."@.contains('/'));
    lemma_words_of(dir, ".."@);
    assert(".."@ != "."@) by {
        assert(".."@.len() != "."@.len());
    }
    lists::lemma_filter_push(w, ".."@, keep);
    lemma_unbroken(name);
    lemma_unbroken(none);
    text::law_separators_part_the_words(none, '/', name, sep);
    text::law_separators_part_the_words(none, '/', none, sep);
    let empty = Seq::<Seq<char>>::empty();
    lists::lemma_filter_push(empty, name, keep);
    lists::lemma_filter_ends(empty, keep);
    assert(empty.take(0) =~= empty);
    assert(empty.push(name) =~= seq![name]);
}

/// A path is in the Stow folder exactly where the first directory below the cloud folders is
/// called `Stow`, or has a name that ends in `-Stow`; its place there is then told by the
/// names that follow. `home` is what comes before the cloud folders, for the first time.
pub proof fn law_the_stow_folder_is_known_by_its_name(
    home: Seq<char>,
    mount: Seq<char>,
    stem: Seq<char>,
    rest: Seq<char>,
)
    requires
        forall|j: int|
            0 <= j < home.len() ==> !text::occurs_at(
                home + "/Library/CloudStorage/"@ + mount + "/"@ + rest,
                "/Library/CloudStorage/"@,
                j,
            ),
        mount.len() > 0,
        !mount.contains('/'),
    ensures
        mount == "Stow"@ || mount == stem + "-Stow"@ ==> relative(
            home + "/Library/CloudStorage/"@ + mount + "/"@ + rest,
        ) == Some(text::words(rest, Separator::Is('/'))),
        mount != "Stow"@ && (forall|x: Seq<char>| mount != #[trigger] (x + "-Stow"@)) ==> relative(
            home + "/Library/CloudStorage/"@ + mount + "/"@ + rest,
        ) is None,
{
    reveal_strlit("/");
    let sep = Separator::Is('/');
    let m = "/Library/CloudStorage/"@;
    let path = home + m + mount + "/"@ + rest;
    let at = home.len() as int;
    assert(path.subrange(at, at + m.len()) =~= m);
    assert(text::occurs_at(path, m, at));
    assert(is_first(path, cloud_marker(), at));
    let i = choose|i: int| is_first(path, cloud_marker(), i);
    lemma_first_unique(path, cloud_marker(), i, at);
    assert(path.skip(at + m.len()) =~= mount + "/"@ + rest);
    assert("/"@ =~= seq!['/']);
    lemma_unbroken(mount);
    text::law_separators_part_the_words(Seq::empty(), '/', mount, sep);
    text::law_separators_part_the_words(mount, '/', rest, sep);
    let below = below_marker(path);
    assert(below =~= seq![mount] + text::words(rest, sep));
    assert(below[0] == mount);
    assert(below.drop_first() =~= text::words(rest, sep));
    let ending = "-Stow"@;
    if mount == stem + ending {
        assert(ending =~= mount.subrange(mount.len() - ending.len(), mount.len() as int));
    }
    if ending.is_suffix_of(mount) {
        let x = mount.take(mount.len() - ending.len());
        assert(mount =~= x + ending);
    }
}

/// Each name further down is one more of the place in the Stow folder.
pub proof fn law_places_grow_name_by_name(path: Seq<char>, name: Seq<char>)
    requires
        !name.contains('/'),
        name.len() > 0,
        relative(path) is Some,
    ensures
        relative(path + "/"@ + name) == Some(relative(path)->0.push(name)),
{
    reveal_strlit("/");
    let m = cloud_marker();
    let long = path + "/"@ + name;
    lemma_has_first(path, m);
    let i = choose|i: int| is_first(path, m, i);
    assert forall|j: int| 0 <= j <= i implies (text::occurs_at(long, m, j) == text::occurs_at(
        path,
        m,
        j,
    )) by {
        if j + m.len() <= path.len() {
            assert(long.subrange(j, j + m.len()) =~= path.subrange(j, j + m.len()));
        }
    }
    assert(text::occurs_at(long, m, i));
    assert(is_first(long, m, i));
    let k = choose|k: int| is_first(long, m, k);
    lemma_first_unique(long, m, k, i);
    let tail = path.skip(i + m.len());
    assert(long.skip(i + m.len()) =~= tail + "/"@ + name);
    lemma_words_of(tail, name);
    let below = below_marker(path);
    assert(below_marker(long) == below.push(name));
    assert(below.push(name).drop_first() =~= below.drop_first().push(name));
}

proof fn lemma_has_first(hay: Seq<char>, needle: Seq<char>)
    requires
        text::occurs(hay, needle),
    ensures
        exists|i: int| is_first(hay, needle, i),
{
    let i = choose|i: int| text::occurs_at(hay, needle, i);
    lemma_first_before(hay, needle, i);
}

proof fn lemma_first_before(hay: Seq<char>, needle: Seq<char>, i: int)
    requires
        text::occurs_at(hay, needle, i),
    ensures
        exists|k: int| is_first(hay, needle, k),
    decreases i,
{
    if exists|j: int| 0 <= j < i && text::occurs_at(hay, needle, j) {
        let j = choose|j: int| 0 <= j < i && text::occurs_at(hay, needle, j);
        lemma_first_before(hay, needle, j);
    } else {
        assert(is_first(hay, needle, i));
    }
}

/// A path that does not go through the cloud folders is not in the Stow folder.
pub proof fn law_paths_elsewhere_have_no_place(path: Seq<char>)
    requires
        forall|a: Seq<char>, b: Seq<char>| path != #[trigger] (a + "/Library/CloudStorage/"@ + b),
    ensures
        relative(path) is None,
        !in_stow_folder(path),
{
    let m = "/Library/CloudStorage/"@;
    if text::occurs(path, m) {
        let i = choose|i: int| text::occurs_at(path, m, i);
        let a = path.take(i);
        let b = path.skip(i + m.len());
        assert forall|j: int| 0 <= j < m.len() implies path[i + j] == m[j] by {
            assert(path.subrange(i, i + m.len())[j] == m[j]);
        }
        assert(path =~= a + m + b);
    }
}

/// The names that are tried for a link are in the directory of the file, and no two of them
/// are the same.
pub proof fn law_names_beside_are_in_the_same_directory(
    dir: Seq<char>,
    name: Seq<char>,
    n: u32,
    m: u32,
)
    requires
        !name.contains('/'),
    ensures
        beside(dir + "/"@ + name, n) == dir + "/"@ + ".stow-"@ + text::dec(n as int),
        beside(name, n) == ".stow-"@ + text::dec(n as int),
        beside(dir + "/"@ + name, n) == beside(dir + "/"@ + name, m) ==> n == m,
{
    reveal_strlit("/");
    assert("/"@ =~= seq!['/']);
    lemma_dir_of(dir + "/"@, name);
    lemma_dir_of(Seq::empty(), name);
    assert(Seq::<char>::empty() + name =~= name);
    assert(Seq::<char>::empty() + ".stow-"@ =~= ".stow-"@);
    let p = dir + "/"@ + name;
    if beside(p, n) == beside(p, m) {
        let front = dir_part(p) + ".stow-"@;
        assert(beside(p, n).skip(front.len() as int) =~= text::dec(n as int));
        assert(beside(p, m).skip(front.len() as int) =~= text::dec(m as int));
        text::lemma_dec_injective(n as int, m as int);
    }
}

proof fn lemma_dir_of(dir: Seq<char>, name: Seq<char>)
    requires
        dir.len() == 0 || dir.last() == '/',
        !name.contains('/'),
    ensures
        dir_part(dir + name) == dir,
    decreases name.len(),
{
    let all = dir + name;
    if name.len() == 0 {
        assert(all =~= dir);
    } else {
        assert(name.contains(name.last()));
        assert(all.last() == name.last());
        let rest = name.drop_last();
        assert forall|i: int| 0 <= i < rest.len() implies rest[i] != '/' by {
            assert(name[i] == rest[i]);
            assert(name.contains(name[i]));
        }
        assert(all.drop_last() =~= dir + rest);
        lemma_dir_of(dir, rest);
    }
}

/// The mount of the Stow folder is the first entry that is called `Stow` or has a name that
/// ends in `-Stow`, and there is only one first.
pub proof fn law_the_first_mount_counts(names: Seq<Seq<u8>>, i: int, k: int)
    requires
        is_first_mount(names, i),
        0 <= k < names.len(),
    ensures
        0 <= i < names.len(),
        text::utf8_lossy(names[i]) == "Stow"@ || exists|stem: Seq<char>|
            text::utf8_lossy(names[i]) == #[trigger] (stem + "-Stow"@),
        k < i ==> text::utf8_lossy(names[k]) != "Stow"@ && forall|stem: Seq<char>|
            text::utf8_lossy(names[k]) != #[trigger] (stem + "-Stow"@),
        is_first_mount(names, k) ==> k == i,
{
    let ending = "-Stow"@;
    let n = text::utf8_lossy(names[i]);
    if ending.is_suffix_of(n) {
        let stem = n.take(n.len() - ending.len());
        assert(ending =~= n.subrange(n.len() - ending.len(), n.len() as int));
        assert(n =~= stem + ending);
    }
    if k < i {
        let m = text::utf8_lossy(names[k]);
        assert(!is_mount(m));
        assert forall|stem: Seq<char>| m != #[trigger] (stem + "-Stow"@) by {
            if m == stem + ending {
                assert(ending =~= m.subrange(m.len() - ending.len(), m.len() as int));
            }
        }
    }
    if is_first_mount(names, k) && k > i {
        assert(!is_mount(text::utf8_lossy(names[i])));
    }
}

} // verus!

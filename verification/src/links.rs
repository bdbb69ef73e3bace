//! Share links: their tokens, their object keys and their addresses.

use vstd::prelude::*;
use vstd::utf8::*;

use crate::hash;
use crate::text;

verus! {

// ---- tokens ---------------------------------------------------------------------

/// The lowercase character for a hexadecimal digit.
pub open spec fn hex_digit(d: u8) -> char {
    if d < 10 {
        ((48 + d) as u8) as char
    } else {
        ((87 + d) as u8) as char
    }
}

/// Bytes as lowercase hexadecimal digits, two for each.
pub open spec fn hex_of(b: Seq<u8>) -> Seq<char>
    decreases b.len(),
{
    if b.len() == 0 {
        Seq::empty()
    } else {
        seq![hex_digit(b[0] / 16), hex_digit(b[0] % 16)] + hex_of(b.drop_first())
    }
}

fn hex_char(d: u8) -> (r: char)
    requires
        d < 16,
    ensures
        r == hex_digit(d),
{
    if d < 10 {
        (48 + d) as char
    } else {
        (87 + d) as char
    }
}

/// Writes random bytes as a token, the part of a share link that cannot be guessed.
pub fn token_of(b: &Vec<u8>) -> (r: String)
    ensures
        r@ == hex_of(b@),
{
    let mut out = String::new();
    let mut i: usize = 0;
    assert(b@.skip(0) =~= b@);
    assert(out@ + hex_of(b@) =~= hex_of(b@));
    while i < b.len()
        invariant
            i <= b.len(),
            out@ + hex_of(b@.skip(i as int)) == hex_of(b@),
        decreases b.len() - i,
    {
        let x = b[i];
        let ghost before = out@;
        out.push(hex_char(x / 16));
        out.push(hex_char(x % 16));
        proof {
            let rest = b@.skip(i as int);
            assert(rest.drop_first() =~= b@.skip(i + 1));
            assert(before + hex_of(rest) =~= out@ + hex_of(b@.skip(i + 1)));
        }
        i += 1;
    }
    assert(out@ + hex_of(b@.skip(i as int)) =~= out@);
    out
}

/// A token is made of hexadecimal digits, two for each random byte.
pub proof fn law_tokens_are_hexadecimal(b: Seq<u8>)
    ensures
        hex_of(b).len() == 2 * b.len(),
        forall|i: int| 0 <= i < hex_of(b).len() ==> hash::is_hex(#[trigger] hex_of(b)[i]),
    decreases b.len(),
{
    if b.len() > 0 {
        law_tokens_are_hexadecimal(b.drop_first());
        assert forall|i: int| 0 <= i < hex_of(b).len() implies hash::is_hex(
            #[trigger] hex_of(b)[i],
        ) by {
            if i >= 2 {
                assert(hex_of(b)[i] == hex_of(b.drop_first())[i - 2]);
            }
        }
    }
}

/// Different random bytes give different tokens.
pub proof fn law_tokens_tell_bytes_apart(a: Seq<u8>, b: Seq<u8>)
    requires
        hex_of(a) == hex_of(b),
    ensures
        a == b,
    decreases a.len(),
{
    law_tokens_are_hexadecimal(a);
    law_tokens_are_hexadecimal(b);
    if a.len() > 0 {
        let x = hex_of(a);
        let y = hex_of(b);
        assert(x[0] == y[0] && x[1] == y[1]);
        assert(a[0] / 16 == b[0] / 16);
        assert(a[0] % 16 == b[0] % 16);
        assert(a[0] == b[0]);
        assert(x.skip(2) =~= hex_of(a.drop_first()));
        assert(y.skip(2) =~= hex_of(b.drop_first()));
        law_tokens_tell_bytes_apart(a.drop_first(), b.drop_first());
        assert(a =~= seq![a[0]] + a.drop_first());
        assert(b =~= seq![b[0]] + b.drop_first());
    } else {
        assert(a =~= b);
    }
}

/// A token reads back as the random bytes: each pair of digits is the value of one byte, the
/// high half first.
pub proof fn law_tokens_read_back(b: Seq<u8>, i: int)
    requires
        0 <= i < b.len(),
    ensures
        16 * hex_value(hex_of(b)[2 * i]) + hex_value(hex_of(b)[2 * i + 1]) == b[i],
    decreases b.len(),
{
    law_tokens_are_hexadecimal(b.drop_first());
    if i > 0 {
        law_tokens_read_back(b.drop_first(), i - 1);
        assert(hex_of(b)[2 * i] == hex_of(b.drop_first())[2 * (i - 1)]);
        assert(hex_of(b)[2 * i + 1] == hex_of(b.drop_first())[2 * (i - 1) + 1]);
    } else {
        assert(hex_of(b)[0] == hex_digit(b[0] / 16));
        assert(hex_of(b)[1] == hex_digit(b[0] % 16));
    }
}

// ---- addresses ------------------------------------------------------------------

/// Whether a byte stands for itself in an address.
pub open spec fn is_plain(b: u8) -> bool {
    ||| 65 <= b <= 90
    ||| 97 <= b <= 122
    ||| 48 <= b <= 57
    ||| b == 45
    ||| b == 95
    ||| b == 46
    ||| b == 126
}

/// The uppercase character for a hexadecimal digit.
pub open spec fn upper_hex_digit(d: u8) -> char {
    if d < 10 {
        ((48 + d) as u8) as char
    } else {
        ((55 + d) as u8) as char
    }
}

/// A byte as it stands in an address.
pub open spec fn escaped(b: u8) -> Seq<char> {
    if is_plain(b) {
        seq![b as char]
    } else {
        seq!['%', upper_hex_digit(b / 16), upper_hex_digit(b % 16)]
    }
}

/// Bytes as they stand in an address.
pub open spec fn percent_encoded(b: Seq<u8>) -> Seq<char>
    decreases b.len(),
{
    if b.len() == 0 {
        Seq::empty()
    } else {
        escaped(b[0]) + percent_encoded(b.drop_first())
    }
}

fn upper_hex_char(d: u8) -> (r: char)
    requires
        d < 16,
    ensures
        r == upper_hex_digit(d),
{
    if d < 10 {
        (48 + d) as char
    } else {
        (55 + d) as char
    }
}

/// Encodes a file name for an address: letters, digits and `-_.~` stay, every other
/// byte becomes a percent sign and two hexadecimal digits.
pub fn url_encode(s: &str) -> (r: String)
    ensures
        r@ == percent_encoded(encode_utf8(s@)),
{
    let b = s.as_bytes();
    let mut out = String::new();
    let mut i: usize = 0;
    assert(b@.skip(0) =~= b@);
    assert(out@ + percent_encoded(b@) =~= percent_encoded(b@));
    while i < b.len()
        invariant
            i <= b.len(),
            out@ + percent_encoded(b@.skip(i as int)) == percent_encoded(b@),
        decreases b.len() - i,
    {
        let x = b[i];
        let ghost before = out@;
        if (65 <= x && x <= 90) || (97 <= x && x <= 122) || (48 <= x && x <= 57) || x == 45 || x
            == 95 || x == 46 || x == 126 {
            out.push(x as char);
        } else {
            out.push('%');
            out.push(upper_hex_char(x / 16));
            out.push(upper_hex_char(x % 16));
        }
        proof {
            let rest = b@.skip(i as int);
            assert(rest.drop_first() =~= b@.skip(i + 1));
            assert(out@ =~= before + escaped(x));
            assert(before + percent_encoded(rest) =~= out@ + percent_encoded(b@.skip(i + 1)));
        }
        i += 1;
    }
    assert(out@ + percent_encoded(b@.skip(i as int)) =~= out@);
    out
}

/// Whether `c` may stand in the last part of an address.
pub open spec fn is_address_char(c: char) -> bool {
    c == '%' || ((c as u32) < 128 && is_plain(c as u8))
}

/// An encoded name has only characters that may stand in an address: none that ends a
/// path or starts a query.
pub proof fn law_encoded_names_fit_an_address(b: Seq<u8>, i: int)
    requires
        0 <= i < percent_encoded(b).len(),
    ensures
        is_address_char(percent_encoded(b)[i]),
    decreases b.len(),
{
    let e = escaped(b[0]);
    if i < e.len() {
        assert(percent_encoded(b)[i] == e[i]);
    } else {
        assert(percent_encoded(b)[i] == percent_encoded(b.drop_first())[i - e.len()]);
        law_encoded_names_fit_an_address(b.drop_first(), i - e.len());
    }
}

/// Different names are encoded differently.
pub proof fn law_encoded_names_differ(a: Seq<u8>, b: Seq<u8>)
    requires
        percent_encoded(a) == percent_encoded(b),
    ensures
        a == b,
    decreases a.len(),
{
    let x = percent_encoded(a);
    let y = percent_encoded(b);
    if a.len() == 0 {
        if b.len() > 0 {
            assert(y.len() >= escaped(b[0]).len());
        }
        assert(a =~= b);
    } else {
        assert(x.len() >= escaped(a[0]).len());
        assert(b.len() > 0);
        let p = escaped(a[0]);
        let q = escaped(b[0]);
        assert(x[0] == p[0]);
        assert(y[0] == q[0]);
        assert(is_plain(a[0]) == is_plain(b[0]));
        assert(p.len() == q.len());
        assert(x.take(p.len() as int) =~= p);
        assert(y.take(q.len() as int) =~= q);
        if is_plain(a[0]) {
            assert(p[0] == q[0]);
            assert(a[0] == b[0]);
        } else {
            assert(p[1] == q[1] && p[2] == q[2]);
            assert(a[0] / 16 == b[0] / 16);
            assert(a[0] % 16 == b[0] % 16);
            assert(a[0] == b[0]);
        }
        assert(x.skip(p.len() as int) =~= percent_encoded(a.drop_first()));
        assert(y.skip(q.len() as int) =~= percent_encoded(b.drop_first()));
        law_encoded_names_differ(a.drop_first(), b.drop_first());
        assert(a =~= seq![a[0]] + a.drop_first());
        assert(b =~= seq![b[0]] + b.drop_first());
    }
}

/// An encoded name is made of ASCII letters and digits, of `-`, `_`, `.` and `~`, and of
/// the percent signs of its escapes. So it has nothing that ends a path or starts a query or
/// a fragment, and nothing that a form would read as a blank.
pub proof fn law_encoded_names_are_plain(b: Seq<u8>)
    ensures
        forall|i: int|
            0 <= i < percent_encoded(b).len() ==> {
                let c = #[trigger] percent_encoded(b)[i];
                ||| 'A' <= c <= 'Z'
                ||| 'a' <= c <= 'z'
                ||| '0' <= c <= '9'
                ||| c == '-'
                ||| c == '_'
                ||| c == '.'
                ||| c == '~'
                ||| c == '%'
            },
        !percent_encoded(b).contains('#'),
        !percent_encoded(b).contains('?'),
        !percent_encoded(b).contains('/'),
        !percent_encoded(b).contains('+'),
        !percent_encoded(b).contains('&'),
        !percent_encoded(b).contains(' '),
    decreases b.len(),
{
    let all = percent_encoded(b);
    if b.len() > 0 {
        let e = escaped(b[0]);
        let rest = percent_encoded(b.drop_first());
        law_encoded_names_are_plain(b.drop_first());
        assert forall|i: int| 0 <= i < all.len() implies {
            let c = #[trigger] all[i];
            ||| 'A' <= c <= 'Z'
            ||| 'a' <= c <= 'z'
            ||| '0' <= c <= '9'
            ||| c == '-'
            ||| c == '_'
            ||| c == '.'
            ||| c == '~'
            ||| c == '%'
        } by {
            if i < e.len() {
                assert(all[i] == e[i]);
            } else {
                assert(all[i] == rest[i - e.len()]);
            }
        }
    }
}

/// Every percent sign of an encoded name starts an escape: two digits or capital letters up
/// to `F` follow it.
pub proof fn law_escapes_are_whole(b: Seq<u8>, i: int)
    requires
        0 <= i < percent_encoded(b).len(),
        percent_encoded(b)[i] == '%',
    ensures
        ({
            let e = percent_encoded(b);
            &&& i + 2 < e.len()
            &&& '0' <= e[i + 1] <= '9' || 'A' <= e[i + 1] <= 'F'
            &&& '0' <= e[i + 2] <= '9' || 'A' <= e[i + 2] <= 'F'
        }),
    decreases b.len(),
{
    let e = escaped(b[0]);
    let all = percent_encoded(b);
    let rest = percent_encoded(b.drop_first());
    if i < e.len() {
        assert(all[i] == e[i]);
        assert(i == 0);
        assert(all[1] == e[1] && all[2] == e[2]);
    } else {
        assert(all[i] == rest[i - e.len()]);
        law_escapes_are_whole(b.drop_first(), i - e.len());
        assert(all[i + 1] == rest[i + 1 - e.len()]);
        assert(all[i + 2] == rest[i + 2 - e.len()]);
    }
}

/// Letters, digits and `-_.~` stand for themselves in an encoded name: a name made of them
/// alone is not changed.
pub proof fn law_plain_names_stay(name: Seq<char>)
    requires
        forall|i: int|
            0 <= i < name.len() ==> {
                let c = #[trigger] name[i];
                ||| 'A' <= c <= 'Z'
                ||| 'a' <= c <= 'z'
                ||| '0' <= c <= '9'
                ||| c == '-'
                ||| c == '_'
                ||| c == '.'
                ||| c == '~'
            },
    ensures
        percent_encoded(encode_utf8(name)) == name,
    decreases name.len(),
{
    if name.len() > 0 {
        let c = name[0];
        let rest = name.drop_first();
        lemma_ascii_scalar(c);
        assert(encode_utf8(name).drop_first() =~= encode_utf8(rest));
        assert forall|i: int| 0 <= i < rest.len() implies {
            let c = #[trigger] rest[i];
            ||| 'A' <= c <= 'Z'
            ||| 'a' <= c <= 'z'
            ||| '0' <= c <= '9'
            ||| c == '-'
            ||| c == '_'
            ||| c == '.'
            ||| c == '~'
        } by {
            assert(rest[i] == name[i + 1]);
        }
        law_plain_names_stay(rest);
        assert(name =~= seq![c] + rest);
    }
}

/// An ASCII character is one byte.
proof fn lemma_ascii_scalar(c: char)
    requires
        (c as u32) < 128,
    ensures
        encode_scalar(c as u32) == seq![c as u8],
{
    let s = c as u32;
    assert(s < 128 ==> (s & 0x7F) as u8 == s as u8) by (bit_vector);
    assert(encode_scalar(s) =~= seq![c as u8]);
}

/// The UTF-8 bytes of a text that starts with ASCII.
proof fn lemma_encode_after_ascii(front: Seq<char>, back: Seq<char>)
    requires
        forall|i: int| 0 <= i < front.len() ==> (#[trigger] front[i] as u32) < 128,
    ensures
        encode_utf8(front + back) == front.map_values(|c: char| c as u8) + encode_utf8(back),
    decreases front.len(),
{
    if front.len() == 0 {
        assert(front + back =~= back);
        assert(front.map_values(|c: char| c as u8) + encode_utf8(back) =~= encode_utf8(back));
    } else {
        let all = front + back;
        let rest = front.drop_first();
        lemma_ascii_scalar(front[0]);
        assert forall|i: int| 0 <= i < rest.len() implies (#[trigger] rest[i] as u32) < 128 by {
            assert(rest[i] == front[i + 1]);
        }
        lemma_encode_after_ascii(rest, back);
        assert(all.drop_first() =~= rest + back);
        assert(front.map_values(|c: char| c as u8) =~= seq![front[0] as u8] + rest.map_values(
            |c: char| c as u8,
        ));
        assert(encode_utf8(all) =~= front.map_values(|c: char| c as u8) + encode_utf8(back));
    }
}

/// The value of a hexadecimal digit of either case.
pub open spec fn hex_value(c: char) -> int {
    if '0' <= c <= '9' {
        c as int - '0' as int
    } else if 'A' <= c <= 'F' {
        c as int - 'A' as int + 10
    } else {
        c as int - 'a' as int + 10
    }
}

/// What a server reads in the path of an address: a percent sign and two hexadecimal digits
/// stand for a byte, every other character for itself.
pub open spec fn percent_decoded(s: Seq<char>) -> Seq<u8>
    decreases s.len(),
{
    if s.len() == 0 {
        Seq::empty()
    } else if s[0] == '%' && s.len() >= 3 {
        seq![(16 * hex_value(s[1]) + hex_value(s[2])) as u8] + percent_decoded(s.skip(3))
    } else {
        seq![s[0] as u8] + percent_decoded(s.drop_first())
    }
}

/// Decoding what was encoded gives the bytes back.
pub proof fn law_encoded_names_decode(b: Seq<u8>)
    ensures
        percent_decoded(percent_encoded(b)) == b,
    decreases b.len(),
{
    if b.len() > 0 {
        let all = percent_encoded(b);
        let rest = percent_encoded(b.drop_first());
        law_encoded_names_decode(b.drop_first());
        if is_plain(b[0]) {
            assert(all.drop_first() =~= rest);
            assert(all[0] == b[0] as char);
            assert(all[0] != '%');
        } else {
            assert(all.skip(3) =~= rest);
            assert(all[0] == '%' && all.len() >= 3);
            assert(all[1] == upper_hex_digit(b[0] / 16));
            assert(all[2] == upper_hex_digit(b[0] % 16));
            assert(hex_value(all[1]) == b[0] / 16);
            assert(hex_value(all[2]) == b[0] % 16);
        }
        assert(percent_decoded(all) =~= b);
    }
}

/// Decoding goes through ASCII text without percent signs character by character.
proof fn lemma_decode_after_plain(front: Seq<char>, back: Seq<char>)
    requires
        !front.contains('%'),
    ensures
        percent_decoded(front + back) == front.map_values(|c: char| c as u8) + percent_decoded(
            back,
        ),
    decreases front.len(),
{
    if front.len() == 0 {
        assert(front + back =~= back);
        assert(front.map_values(|c: char| c as u8) + percent_decoded(back) =~= percent_decoded(
            back,
        ));
    } else {
        let all = front + back;
        let rest = front.drop_first();
        assert(front.contains(front[0]));
        assert forall|i: int| 0 <= i < rest.len() implies rest[i] != '%' by {
            assert(front[i + 1] == rest[i]);
            assert(front.contains(front[i + 1]));
        }
        lemma_decode_after_plain(rest, back);
        assert(all.drop_first() =~= rest + back);
        assert(all[0] == front[0]);
        assert(front.map_values(|c: char| c as u8) =~= seq![front[0] as u8] + rest.map_values(
            |c: char| c as u8,
        ));
        assert(percent_decoded(all) =~= front.map_values(|c: char| c as u8) + percent_decoded(
            back,
        ));
    }
}

// ---- keys and links -------------------------------------------------------------

/// The key of the object behind a share link.
pub open spec fn key_of_share(token: Seq<char>, name: Seq<char>) -> Seq<char> {
    "shares/"@ + token + ("/"@ + name)
}

/// The address of a share link.
pub open spec fn url_of_share(
    bucket: Seq<char>,
    region: Seq<char>,
    token: Seq<char>,
    name: Seq<char>,
) -> Seq<char> {
    "https://"@ + bucket + ".s3."@ + (region + ".amazonaws.com/shares/"@ + token) + ("/"@
        + percent_encoded(encode_utf8(name)))
}

/// The key of the object behind a share link.
pub fn share_key(token: &str, name: &str) -> (r: String)
    ensures
        r@ == key_of_share(token@, name@),
{
    let tail = text::cat2("/", name);
    text::cat3("shares/", token, tail.as_str())
}

/// The address of a share link.
pub fn share_url(bucket: &str, region: &str, token: &str, name: &str) -> (r: String)
    ensures
        r@ == url_of_share(bucket@, region@, token@, name@),
{
    let host = text::cat3("https://", bucket, ".s3.");
    let place = text::cat3(region, ".amazonaws.com/shares/", token);
    let enc = url_encode(name);
    let tail = text::cat2("/", enc.as_str());
    text::cat3(host.as_str(), place.as_str(), tail.as_str())
}

/// Links with different tokens never share an object, whatever the shared files are
/// called.
pub proof fn law_each_token_has_its_own_object(
    a: Seq<u8>,
    name_a: Seq<char>,
    b: Seq<u8>,
    name_b: Seq<char>,
)
    requires
        key_of_share(hex_of(a), name_a) == key_of_share(hex_of(b), name_b),
    ensures
        hex_of(a) == hex_of(b),
        name_a == name_b,
{
    reveal_strlit("shares/");
    reveal_strlit("/");
    law_tokens_are_hexadecimal(a);
    law_tokens_are_hexadecimal(b);
    let p = hex_of(a);
    let q = hex_of(b);
    let x = key_of_share(p, name_a);
    let y = key_of_share(q, name_b);
    let n = "shares/"@.len() as int;
    if p.len() < q.len() {
        assert(x[n + p.len()] == '/');
        assert(y[n + p.len()] == q[p.len() as int]);
        assert(hash::is_hex(q[p.len() as int]));
    } else if q.len() < p.len() {
        assert(y[n + q.len()] == '/');
        assert(x[n + q.len()] == p[q.len() as int]);
        assert(hash::is_hex(p[q.len() as int]));
    }
    assert(x.subrange(n, n + p.len()) =~= p);
    assert(y.subrange(n, n + q.len()) =~= q);
    assert(x.skip(n + p.len() + 1) =~= name_a);
    assert(y.skip(n + q.len() + 1) =~= name_b);
}

/// A link leads to the object that was made for it: it is on the bucket's own host, over
/// HTTPS, and what a server reads in its path is the object's key, byte for byte, for every
/// token and every name.
pub proof fn law_links_lead_to_their_objects(
    bucket: Seq<char>,
    region: Seq<char>,
    random: Seq<u8>,
    name: Seq<char>,
)
    ensures
        ({
            let host = "https://"@ + bucket + ".s3."@ + region + ".amazonaws.com/"@;
            let url = url_of_share(bucket, region, hex_of(random), name);
            &&& host.is_prefix_of(url)
            &&& percent_decoded(url.skip(host.len() as int)) == encode_utf8(
                key_of_share(hex_of(random), name),
            )
        }),
{
    let token = hex_of(random);
    let host = "https://"@ + bucket + ".s3."@ + region + ".amazonaws.com/"@;
    let url = url_of_share(bucket, region, token, name);
    let front = "shares/"@ + token + "/"@;
    let enc = percent_encoded(encode_utf8(name));
    reveal_strlit("https://");
    reveal_strlit(".s3.");
    reveal_strlit(".amazonaws.com/");
    reveal_strlit(".amazonaws.com/shares/");
    reveal_strlit("shares/");
    reveal_strlit("/");
    law_tokens_are_hexadecimal(random);
    assert(".amazonaws.com/shares/"@ =~= ".amazonaws.com/"@ + "shares/"@);
    assert(url =~= host + (front + enc));
    assert(url.skip(host.len() as int) =~= front + enc);
    assert(host =~= url.subrange(0, host.len() as int));
    assert forall|i: int| 0 <= i < front.len() implies (#[trigger] front[i] as u32) < 128
        && front[i] != '%' by {
        let n = "shares/"@.len() as int;
        if n <= i < n + token.len() {
            assert(front[i] == token[i - n]);
            assert(hash::is_hex(token[i - n]));
        }
    }
    assert(!front.contains('%'));
    lemma_decode_after_plain(front, enc);
    lemma_encode_after_ascii(front, name);
    law_encoded_names_decode(encode_utf8(name));
    assert(key_of_share(token, name) =~= front + name);
}

/// The last part of a link, what follows its last slash, is the encoded name: decoded, it is
/// the last part of the object's key, and it has none of the characters at which a browser
/// cuts an address.
pub proof fn law_the_last_part_of_a_link_is_the_name(
    bucket: Seq<char>,
    region: Seq<char>,
    token: Seq<char>,
    name: Seq<char>,
    cut: int,
)
    requires
        0 <= cut < url_of_share(bucket, region, token, name).len(),
        url_of_share(bucket, region, token, name)[cut] == '/',
        !url_of_share(bucket, region, token, name).skip(cut + 1).contains('/'),
    ensures
        ({
            let part = url_of_share(bucket, region, token, name).skip(cut + 1);
            &&& percent_decoded(part) == encode_utf8(name)
            &&& name.is_suffix_of(key_of_share(token, name))
            &&& !part.contains('#')
            &&& !part.contains('?')
            &&& !part.contains('+')
            &&& !part.contains('&')
            &&& !part.contains(' ')
        }),
{
    let url = url_of_share(bucket, region, token, name);
    let key = key_of_share(token, name);
    let enc = percent_encoded(encode_utf8(name));
    let n = url.len() - enc.len();
    reveal_strlit("/");
    law_encoded_names_are_plain(encode_utf8(name));
    law_encoded_names_decode(encode_utf8(name));
    assert(url[n - 1] == '/');
    assert(url.skip(n as int) =~= enc);
    if cut < n - 1 {
        assert(url.skip(cut + 1)[n - 1 - (cut + 1)] == '/');
        assert(url.skip(cut + 1).contains('/'));
    }
    if cut > n - 1 {
        assert(enc[cut - n] == '/');
        assert(enc.contains('/'));
    }
    assert(cut == n - 1);
    assert(name =~= key.subrange(key.len() - name.len(), key.len() as int));
}

} // verus!

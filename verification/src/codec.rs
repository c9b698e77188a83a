//! The JSON wire codec for posts.
//!
//! A post travels as the object
//! `{"id":"<uuid>","title":...,"body":...,"author":{"name":...},"created_at":...}`
//! and the feed as a JSON array of such objects. Encoding and decoding are
//! the library's own logic, specified exactly over sequences of characters.

use vstd::prelude::*;
use vstd::string::StrSliceExecFns;

use crate::model::{Author, AuthorView, Post, PostId, PostView};
use crate::store::posts_view;

verus! {

// ---------------------------------------------------------------------------
// Characters and hexadecimal digits
// ---------------------------------------------------------------------------

/// Lower-case hexadecimal digit of a value below sixteen.
pub open spec fn hex_char(n: u128) -> char {
    if n == 0 {
        '0'
    } else if n == 1 {
        '1'
    } else if n == 2 {
        '2'
    } else if n == 3 {
        '3'
    } else if n == 4 {
        '4'
    } else if n == 5 {
        '5'
    } else if n == 6 {
        '6'
    } else if n == 7 {
        '7'
    } else if n == 8 {
        '8'
    } else if n == 9 {
        '9'
    } else if n == 10 {
        'a'
    } else if n == 11 {
        'b'
    } else if n == 12 {
        'c'
    } else if n == 13 {
        'd'
    } else if n == 14 {
        'e'
    } else {
        'f'
    }
}

/// Numeric value of a hexadecimal digit, either case, or nothing.
pub open spec fn hex_val(c: char) -> Option<u8> {
    if c == '0' {
        Some(0u8)
    } else if c == '1' {
        Some(1u8)
    } else if c == '2' {
        Some(2u8)
    } else if c == '3' {
        Some(3u8)
    } else if c == '4' {
        Some(4u8)
    } else if c == '5' {
        Some(5u8)
    } else if c == '6' {
        Some(6u8)
    } else if c == '7' {
        Some(7u8)
    } else if c == '8' {
        Some(8u8)
    } else if c == '9' {
        Some(9u8)
    } else if c == 'a' || c == 'A' {
        Some(10u8)
    } else if c == 'b' || c == 'B' {
        Some(11u8)
    } else if c == 'c' || c == 'C' {
        Some(12u8)
    } else if c == 'd' || c == 'D' {
        Some(13u8)
    } else if c == 'e' || c == 'E' {
        Some(14u8)
    } else if c == 'f' || c == 'F' {
        Some(15u8)
    } else {
        None
    }
}

fn hex_char_x(n: u8) -> (c: char)
    requires
        n < 16,
    ensures
        c == hex_char(n as u128),
{
    if n == 0 {
        '0'
    } else if n == 1 {
        '1'
    } else if n == 2 {
        '2'
    } else if n == 3 {
        '3'
    } else if n == 4 {
        '4'
    } else if n == 5 {
        '5'
    } else if n == 6 {
        '6'
    } else if n == 7 {
        '7'
    } else if n == 8 {
        '8'
    } else if n == 9 {
        '9'
    } else if n == 10 {
        'a'
    } else if n == 11 {
        'b'
    } else if n == 12 {
        'c'
    } else if n == 13 {
        'd'
    } else if n == 14 {
        'e'
    } else {
        'f'
    }
}

fn hex_val_x(c: char) -> (r: Option<u8>)
    ensures
        r == hex_val(c),
{
    if c >= '0' && c <= '9' {
        let v = c as u32 - '0' as u32;
        Some(v as u8)
    } else if c >= 'a' && c <= 'f' {
        let v = c as u32 - 'a' as u32 + 10;
        Some(v as u8)
    } else if c >= 'A' && c <= 'F' {
        let v = c as u32 - 'A' as u32 + 10;
        Some(v as u8)
    } else {
        None
    }
}

/// The character whose scalar value is `v`; meaningful only when `v` is in
/// fact the value of some character.
pub open spec fn char_of(v: int) -> char {
    v as char
}

/// Whether `v` is a unicode scalar value, that is, the value of some `char`.
pub open spec fn is_scalar_value(v: int) -> bool {
    (0 <= v && v < 0xD800) || (0xE000 <= v && v <= 0x10FFFF)
}

/// Relies on char::from_u32: yields the character with the given scalar
/// value, and nothing exactly on surrogate values and values above char::MAX.
#[verifier::external_body]
fn char_from_u32(v: u32) -> (r: Option<char>)
    ensures
        r is Some <==> is_scalar_value(v as int),
        r matches Some(c) ==> c as u32 == v && c == char_of(v as int),
{
    char::from_u32(v)
}

/// Relies on String::push: appends the given character at the end.
#[verifier::external_body]
fn push_char(s: &mut String, c: char)
    ensures
        final(s)@ == old(s)@.push(c),
{
    s.push(c);
}

/// The characters of `s`, in order, as a vector.
pub fn str_chars(s: &str) -> (v: Vec<char>)
    ensures
        v@ == s@,
{
    let n = s.unicode_len();
    let mut v: Vec<char> = Vec::new();
    for i in 0..n
        invariant
            n == s@.len(),
            v@ =~= s@.take(i as int),
    {
        v.push(s.get_char(i));
        proof {
            assert(v@ =~= s@.take(i + 1));
        }
    }
    proof {
        assert(s@.take(n as int) =~= s@);
    }
    v
}

fn push_lit(out: &mut String, lit: &str)
    ensures
        final(out)@ == old(out)@ + lit@,
{
    let n = lit.unicode_len();
    proof {
        assert(out@ =~= old(out)@ + lit@.take(0));
    }
    for i in 0..n
        invariant
            n == lit@.len(),
            out@ == old(out)@ + lit@.take(i as int),
    {
        push_char(out, lit.get_char(i));
        proof {
            assert(out@ =~= old(out)@ + lit@.take(i + 1));
        }
    }
    proof {
        assert(old(out)@ + lit@.take(n as int) =~= old(out)@ + lit@);
    }
}

// ---------------------------------------------------------------------------
// String escaping
// ---------------------------------------------------------------------------

/// How one character is written inside a JSON string: quote and backslash
/// are escaped, control characters take the `\u00XX` form, everything else
/// stands as itself.
pub open spec fn escape_char(c: char) -> Seq<char> {
    if c == '"' {
        seq!['\\', '"']
    } else if c == '\\' {
        seq!['\\', '\\']
    } else if (c as u32) < 32 {
        seq![
            '\\',
            'u',
            '0',
            '0',
            hex_char((c as u32 / 16) as u128),
            hex_char((c as u32 % 16) as u128),
        ]
    } else {
        seq![c]
    }
}

/// A whole character sequence written inside a JSON string.
pub open spec fn escape_seq(s: Seq<char>) -> Seq<char>
    decreases s.len(),
{
    if s.len() == 0 {
        Seq::empty()
    } else {
        escape_char(s[0]) + escape_seq(s.drop_first())
    }
}

proof fn lemma_escape_push(s: Seq<char>, c: char)
    ensures
        escape_seq(s.push(c)) == escape_seq(s) + escape_char(c),
    decreases s.len(),
{
    if s.len() == 0 {
        assert(s.push(c).drop_first() =~= Seq::<char>::empty());
        assert(s.push(c)[0] == c);
        assert(escape_seq(s.push(c)) == escape_char(c) + escape_seq(Seq::<char>::empty()));
        assert(escape_char(c) + Seq::<char>::empty() =~= Seq::<char>::empty() + escape_char(c));
    } else {
        lemma_escape_push(s.drop_first(), c);
        assert(s.push(c).drop_first() =~= s.drop_first().push(c));
        assert(s.push(c)[0] == s[0]);
        assert(escape_seq(s.push(c)) == escape_char(s[0]) + escape_seq(s.drop_first().push(c)));
        assert(escape_char(s[0]) + (escape_seq(s.drop_first()) + escape_char(c)) =~= (escape_char(
            s[0],
        ) + escape_seq(s.drop_first())) + escape_char(c));
    }
}

fn push_escaped(out: &mut String, s: &str)
    ensures
        final(out)@ == old(out)@ + escape_seq(s@),
{
    let n = s.unicode_len();
    proof {
        assert(s@.take(0) =~= Seq::<char>::empty());
        assert(out@ =~= old(out)@ + escape_seq(s@.take(0)));
    }
    for i in 0..n
        invariant
            n == s@.len(),
            out@ == old(out)@ + escape_seq(s@.take(i as int)),
    {
        let c = s.get_char(i);
        proof {
            assert(s@.take(i as int).push(c) =~= s@.take(i + 1));
            lemma_escape_push(s@.take(i as int), c);
        }
        if c == '"' {
            push_char(out, '\\');
            push_char(out, '"');
        } else if c == '\\' {
            push_char(out, '\\');
            push_char(out, '\\');
        } else if (c as u32) < 32 {
            push_char(out, '\\');
            push_char(out, 'u');
            push_char(out, '0');
            push_char(out, '0');
            push_char(out, hex_char_x(((c as u32) / 16) as u8));
            push_char(out, hex_char_x(((c as u32) % 16) as u8));
        } else {
            push_char(out, c);
        }
        proof {
            assert(out@ =~= old(out)@ + escape_seq(s@.take(i + 1)));
        }
    }
    proof {
        assert(s@.take(n as int) =~= s@);
    }
}

// ---------------------------------------------------------------------------
// UUID text
// ---------------------------------------------------------------------------

/// The `i`-th hexadecimal digit value of `id`, most significant first.
pub open spec fn nib(id: u128, i: int) -> u128 {
    (id >> (((31 - i) * 4) as u128)) & 0xf
}

/// The 32 hexadecimal digits of `id`, most significant first.
pub open spec fn uuid_hex(id: u128) -> Seq<char> {
    Seq::new(32, |i: int| hex_char(nib(id, i)))
}

/// The hyphenated 8-4-4-4-12 form in which an id travels.
pub open spec fn uuid_chars(id: u128) -> Seq<char> {
    uuid_hex(id).subrange(0, 8) + seq!['-'] + uuid_hex(id).subrange(8, 12) + seq!['-']
        + uuid_hex(id).subrange(12, 16) + seq!['-'] + uuid_hex(id).subrange(16, 20) + seq!['-']
        + uuid_hex(id).subrange(20, 32)
}

fn push_hex_range(out: &mut String, id: u128, from: usize, to: usize)
    requires
        from <= to <= 32,
    ensures
        final(out)@ == old(out)@ + uuid_hex(id).subrange(from as int, to as int),
{
    proof {
        assert(out@ =~= old(out)@ + uuid_hex(id).subrange(from as int, from as int));
    }
    for k in from..to
        invariant
            from <= k <= to <= 32,
            out@ == old(out)@ + uuid_hex(id).subrange(from as int, k as int),
    {
        let sh: u128 = (31 - k as u128) * 4;
        let d: u128 = (id >> sh) & 0xf;
        proof {
            assert(d < 16) by (bit_vector)
                requires
                    d == (id >> sh) & 0xf,
            ;
            assert(sh == ((31 - k as int) * 4) as u128);
            assert(d == nib(id, k as int));
        }
        push_char(out, hex_char_x(d as u8));
        proof {
            assert(uuid_hex(id).subrange(from as int, k as int).push(uuid_hex(id)[k as int])
                =~= uuid_hex(id).subrange(from as int, k + 1));
            assert(out@ =~= old(out)@ + uuid_hex(id).subrange(from as int, k + 1));
        }
    }
}

fn push_uuid(out: &mut String, id: u128)
    ensures
        final(out)@ == old(out)@ + uuid_chars(id),
{
    push_hex_range(out, id, 0, 8);
    push_char(out, '-');
    push_hex_range(out, id, 8, 12);
    push_char(out, '-');
    push_hex_range(out, id, 12, 16);
    push_char(out, '-');
    push_hex_range(out, id, 16, 20);
    push_char(out, '-');
    push_hex_range(out, id, 20, 32);
    proof {
        assert(out@ =~= old(out)@ + uuid_chars(id));
    }
}

// ---------------------------------------------------------------------------
// Encoding
// ---------------------------------------------------------------------------

/// The exact JSON text of one post.
pub open spec fn post_json(p: PostView) -> Seq<char> {
    "{\"id\":\""@ + uuid_chars(p.id) + "\",\"title\":\""@ + escape_seq(p.title)
        + "\",\"body\":\""@ + escape_seq(p.body) + "\",\"author\":{\"name\":\""@ + escape_seq(
        p.author.name,
    ) + "\"},\"created_at\":\""@ + escape_seq(p.created_at) + "\"}"@
}

/// The posts after the first one inside a feed array, each behind a comma.
pub open spec fn feed_rest(ps: Seq<PostView>) -> Seq<char>
    decreases ps.len(),
{
    if ps.len() == 0 {
        Seq::empty()
    } else {
        seq![','] + post_json(ps[0]) + feed_rest(ps.drop_first())
    }
}

/// What stands between the brackets of a feed array.
pub open spec fn feed_items(ps: Seq<PostView>) -> Seq<char> {
    if ps.len() == 0 {
        Seq::empty()
    } else {
        post_json(ps[0]) + feed_rest(ps.drop_first())
    }
}

/// The exact JSON text of a whole feed, oldest post first.
pub open spec fn feed_json(ps: Seq<PostView>) -> Seq<char> {
    seq!['['] + feed_items(ps) + seq![']']
}

proof fn lemma_feed_rest_push(ps: Seq<PostView>, p: PostView)
    ensures
        feed_rest(ps.push(p)) == feed_rest(ps) + seq![','] + post_json(p),
    decreases ps.len(),
{
    if ps.len() == 0 {
        assert(ps.push(p).drop_first() =~= Seq::<PostView>::empty());
        assert(ps.push(p)[0] == p);
        assert(feed_rest(ps.push(p)) == seq![','] + post_json(p) + feed_rest(
            Seq::<PostView>::empty(),
        ));
        assert(seq![','] + post_json(p) + Seq::<char>::empty() =~= Seq::<char>::empty() + seq![',']
            + post_json(p));
    } else {
        lemma_feed_rest_push(ps.drop_first(), p);
        assert(ps.push(p).drop_first() =~= ps.drop_first().push(p));
        assert(ps.push(p)[0] == ps[0]);
        assert(feed_rest(ps.push(p)) == seq![','] + post_json(ps[0]) + feed_rest(
            ps.drop_first().push(p),
        ));
        assert(seq![','] + post_json(ps[0]) + (feed_rest(ps.drop_first()) + seq![','] + post_json(
            p,
        )) =~= (seq![','] + post_json(ps[0]) + feed_rest(ps.drop_first())) + seq![','] + post_json(
            p,
        ));
    }
}

proof fn lemma_feed_items_push(ps: Seq<PostView>, p: PostView)
    ensures
        ps.len() == 0 ==> feed_items(ps.push(p)) == post_json(p),
        ps.len() > 0 ==> feed_items(ps.push(p)) == feed_items(ps) + seq![','] + post_json(p),
{
    if ps.len() == 0 {
        assert(ps.push(p).drop_first() =~= Seq::<PostView>::empty());
        assert(feed_items(ps.push(p)) =~= post_json(p));
    } else {
        lemma_feed_rest_push(ps.drop_first(), p);
        assert(ps.push(p).drop_first() =~= ps.drop_first().push(p));
        assert(ps.push(p)[0] == ps[0]);
        assert(feed_items(ps.push(p)) =~= feed_items(ps) + seq![','] + post_json(p));
    }
}

/// Writes one post in its wire form.
pub fn encode_post(p: &Post) -> (r: String)
    ensures
        r@ == post_json(p@),
{
    let mut out = String::new();
    push_lit(&mut out, "{\"id\":\"");
    push_uuid(&mut out, p.id.value);
    push_lit(&mut out, "\",\"title\":\"");
    push_escaped(&mut out, p.title.as_str());
    push_lit(&mut out, "\",\"body\":\"");
    push_escaped(&mut out, p.body.as_str());
    push_lit(&mut out, "\",\"author\":{\"name\":\"");
    push_escaped(&mut out, p.author.name.as_str());
    push_lit(&mut out, "\"},\"created_at\":\"");
    push_escaped(&mut out, p.created_at.as_str());
    push_lit(&mut out, "\"}");
    proof {
        assert(out@ =~= post_json(p@));
    }
    out
}

/// Writes a whole feed in its wire form, in the order given.
pub fn encode_feed(posts: &Vec<Post>) -> (r: String)
    ensures
        r@ == feed_json(posts_view(posts@)),
{
    let ghost ps = posts_view(posts@);
    let mut out = String::new();
    push_char(&mut out, '[');
    let n = posts.len();
    proof {
        assert(ps.take(0) =~= Seq::<PostView>::empty());
        assert(out@ =~= seq!['['] + feed_items(ps.take(0)));
    }
    for i in 0..n
        invariant
            n == posts.len(),
            ps == posts_view(posts@),
            ps.len() == n,
            out@ == seq!['['] + feed_items(ps.take(i as int)),
    {
        proof {
            assert(ps.take(i as int).push(ps[i as int]) =~= ps.take(i + 1));
            lemma_feed_items_push(ps.take(i as int), ps[i as int]);
        }
        if i > 0 {
            push_char(&mut out, ',');
        }
        let encoded = encode_post(&posts[i]);
        push_lit(&mut out, encoded.as_str());
        proof {
            assert(posts@[i as int]@ == ps[i as int]);
            assert(out@ =~= seq!['['] + feed_items(ps.take(i + 1)));
        }
    }
    push_char(&mut out, ']');
    proof {
        assert(ps.take(n as int) =~= ps);
        assert(out@ =~= feed_json(ps));
    }
    out
}

// ---------------------------------------------------------------------------
// Decoding
// ---------------------------------------------------------------------------

/// JSON insignificant whitespace.
pub open spec fn is_ws(c: char) -> bool {
    c == ' ' || c == '\t' || c == '\n' || c == '\r'
}

/// First position at or after `i` that holds no whitespace.
pub open spec fn skip_ws(s: Seq<char>, i: int) -> int
    decreases s.len() - i,
{
    if 0 <= i < s.len() && is_ws(s[i]) {
        skip_ws(s, i + 1)
    } else {
        i
    }
}

/// `lit` standing verbatim at `i`: the position after it, or nothing.
pub open spec fn expect(s: Seq<char>, i: int, lit: Seq<char>) -> Option<int> {
    if 0 <= i && i + lit.len() <= s.len() && s.subrange(i, i + lit.len()) == lit {
        Some(i + lit.len())
    } else {
        None
    }
}

/// The single character written by a one-letter escape, if the letter is one.
pub open spec fn simple_escape(e: char) -> Option<char> {
    if e == '"' {
        Some('"')
    } else if e == '\\' {
        Some('\\')
    } else if e == '/' {
        Some('/')
    } else if e == 'b' {
        Some('\u{0008}')
    } else if e == 'f' {
        Some('\u{000C}')
    } else if e == 'n' {
        Some('\n')
    } else if e == 'r' {
        Some('\r')
    } else if e == 't' {
        Some('\t')
    } else {
        None
    }
}

/// The decoded content of a JSON string, read from `i` (just after the
/// opening quote) to the closing quote: the content and the position after
/// that quote. A `\u` escape must name a scalar value on its own; surrogate
/// pairs are not accepted.
pub open spec fn parse_string_body(s: Seq<char>, i: int) -> Option<(Seq<char>, int)>
    decreases s.len() - i,
{
    if i < 0 || i >= s.len() {
        None
    } else if s[i] == '"' {
        Some((Seq::empty(), i + 1))
    } else if s[i] == '\\' {
        if i + 1 >= s.len() {
            None
        } else {
            let e = s[i + 1];
            if simple_escape(e) is Some {
                match parse_string_body(s, i + 2) {
                    Some(r) => Some((seq![simple_escape(e)->0] + r.0, r.1)),
                    None => None,
                }
            } else if e == 'u' {
                if s.len() - i < 6 {
                    None
                } else {
                    match (hex_val(s[i + 2]), hex_val(s[i + 3]), hex_val(s[i + 4]), hex_val(
                        s[i + 5],
                    )) {
                        (Some(d0), Some(d1), Some(d2), Some(d3)) => {
                            let v = (d0 as int) * 4096 + (d1 as int) * 256 + (d2 as int) * 16 + (
                            d3 as int);
                            if is_scalar_value(v) {
                                match parse_string_body(s, i + 6) {
                                    Some(r) => Some((seq![char_of(v)] + r.0, r.1)),
                                    None => None,
                                }
                            } else {
                                None
                            }
                        },
                        _ => None,
                    }
                }
            } else {
                None
            }
        }
    } else {
        match parse_string_body(s, i + 1) {
            Some(r) => Some((seq![s[i]] + r.0, r.1)),
            None => None,
        }
    }
}

/// Whether position `j` of the 36-character uuid form holds a hyphen.
pub open spec fn uuid_is_hyphen(j: int) -> bool {
    j == 8 || j == 13 || j == 18 || j == 23
}

/// How many digit positions lie before position `j` of the uuid form.
pub open spec fn uuid_digits_before(j: int) -> int {
    j - (if j > 8 {
        1int
    } else {
        0int
    }) - (if j > 13 {
        1int
    } else {
        0int
    }) - (if j > 18 {
        1int
    } else {
        0int
    }) - (if j > 23 {
        1int
    } else {
        0int
    })
}

pub open spec fn pow16(n: nat) -> int
    decreases n,
{
    if n == 0 {
        1
    } else {
        16 * pow16((n - 1) as nat)
    }
}

proof fn lemma_pow16_le(a: nat, b: nat)
    requires
        a <= b,
    ensures
        0 < pow16(a) <= pow16(b),
    decreases b,
{
    if b > 0 {
        if a == b {
            lemma_pow16_le((b - 1) as nat, (b - 1) as nat);
        } else {
            lemma_pow16_le(a, (b - 1) as nat);
        }
    }
}

proof fn lemma_pow16_32()
    ensures
        pow16(32) == 0x100000000000000000000000000000000,
{
    reveal_with_fuel(pow16, 33);
}

/// The id value accumulated from position `j` on, starting from `acc`.
pub open spec fn parse_uuid_from(s: Seq<char>, j: int, acc: int) -> Option<u128>
    decreases 36 - j,
{
    if j < 0 || j > 36 {
        None
    } else if j == 36 {
        Some(acc as u128)
    } else if uuid_is_hyphen(j) {
        if s[j] == '-' {
            parse_uuid_from(s, j + 1, acc)
        } else {
            None
        }
    } else {
        match hex_val(s[j]) {
            Some(d) => parse_uuid_from(s, j + 1, acc * 16 + d),
            None => None,
        }
    }
}

/// A post id read from its hyphenated 8-4-4-4-12 text form, either case.
pub open spec fn parse_uuid(s: Seq<char>) -> Option<u128> {
    if s.len() == 36 {
        parse_uuid_from(s, 0, 0)
    } else {
        None
    }
}

/// One `"key": "value"` member read from `i`: the decoded value and the
/// position after its closing quote. `qkey` is the key with its quotes.
pub open spec fn parse_member(s: Seq<char>, i: int, qkey: Seq<char>) -> Option<(Seq<char>, int)> {
    match expect(s, skip_ws(s, i), qkey) {
        Some(j1) => match expect(s, skip_ws(s, j1), ":"@) {
            Some(j2) => match expect(s, skip_ws(s, j2), "\""@) {
                Some(j3) => parse_string_body(s, j3),
                None => None,
            },
            None => None,
        },
        None => None,
    }
}

/// A whole post read from its wire form: the five members in their fixed
/// order, with whitespace allowed between tokens and nothing after the
/// closing brace.
pub open spec fn parse_post_chars(s: Seq<char>) -> Option<PostView> {
    match expect(s, skip_ws(s, 0), "{"@) {
        Some(i1) => match parse_member(s, i1, "\"id\""@) {
            Some((idc, i2)) => match parse_uuid(idc) {
                Some(id) => match expect(s, skip_ws(s, i2), ","@) {
                    Some(i3) => match parse_member(s, i3, "\"title\""@) {
                        Some((title, i4)) => match expect(s, skip_ws(s, i4), ","@) {
                            Some(i5) => match parse_member(s, i5, "\"body\""@) {
                                Some((body, i6)) => match expect(s, skip_ws(s, i6), ","@) {
                                    Some(i7) => match expect(s, skip_ws(s, i7), "\"author\""@) {
                                        Some(j1) => match expect(s, skip_ws(s, j1), ":"@) {
                                            Some(j2) => match expect(s, skip_ws(s, j2), "{"@) {
                                                Some(j3) => match parse_member(
                                                    s,
                                                    j3,
                                                    "\"name\""@,
                                                ) {
                                                    Some((name, j4)) => match expect(
                                                        s,
                                                        skip_ws(s, j4),
                                                        "}"@,
                                                    ) {
                                                        Some(i8) => match expect(
                                                            s,
                                                            skip_ws(s, i8),
                                                            ","@,
                                                        ) {
                                                            Some(i9) => match parse_member(
                                                                s,
                                                                i9,
                                                                "\"created_at\""@,
                                                            ) {
                                                                Some((created, i10)) => match expect(
                                                                    s,
                                                                    skip_ws(s, i10),
                                                                    "}"@,
                                                                ) {
                                                                    Some(i11) => if skip_ws(
                                                                        s,
                                                                        i11,
                                                                    ) == s.len() {
                                                                        Some(
                                                                            PostView {
                                                                                id,
                                                                                title,
                                                                                body,
                                                                                author: AuthorView {
                                                                                    name,
                                                                                },
                                                                                created_at: created,
                                                                            },
                                                                        )
                                                                    } else {
                                                                        None
                                                                    },
                                                                    None => None,
                                                                },
                                                                None => None,
                                                            },
                                                            None => None,
                                                        },
                                                        None => None,
                                                    },
                                                    None => None,
                                                },
                                                None => None,
                                            },
                                            None => None,
                                        },
                                        None => None,
                                    },
                                    None => None,
                                },
                                None => None,
                            },
                            None => None,
                        },
                        None => None,
                    },
                    None => None,
                },
                None => None,
            },
            None => None,
        },
        None => None,
    }
}

proof fn lemma_hex_roundtrip(n: u128)
    requires
        n < 16,
    ensures
        hex_val(hex_char(n)) == Some(n as u8),
{
}

proof fn lemma_uuid_chars_shape(id: u128)
    ensures
        uuid_chars(id).len() == 36,
        forall|j: int|
            0 <= j < 36 && uuid_is_hyphen(j) ==> uuid_chars(id)[j] == '-',
        forall|j: int|
            0 <= j < 36 && !uuid_is_hyphen(j) ==> uuid_chars(id)[j] == hex_char(
                nib(id, uuid_digits_before(j)),
            ),
{
    assert forall|j: int| 0 <= j < 36 && !uuid_is_hyphen(j) implies uuid_chars(id)[j] == hex_char(
        nib(id, uuid_digits_before(j)),
    ) by {
        if j < 8 {
            assert(uuid_chars(id)[j] == uuid_hex(id)[j]);
        } else if j < 13 {
            assert(uuid_chars(id)[j] == uuid_hex(id)[j - 1]);
        } else if j < 18 {
            assert(uuid_chars(id)[j] == uuid_hex(id)[j - 2]);
        } else if j < 23 {
            assert(uuid_chars(id)[j] == uuid_hex(id)[j - 3]);
        } else {
            assert(uuid_chars(id)[j] == uuid_hex(id)[j - 4]);
        }
    }
}

/// The id value already read once the parse stands at position `j`.
spec fn uuid_acc_at(id: u128, j: int) -> int {
    if uuid_digits_before(j) == 0 {
        0
    } else {
        (id >> (((32 - uuid_digits_before(j)) * 4) as u128)) as int
    }
}

proof fn lemma_uuid_parse_from(id: u128, j: int)
    requires
        0 <= j <= 36,
    ensures
        parse_uuid_from(uuid_chars(id), j, uuid_acc_at(id, j)) == Some(id),
    decreases 36 - j,
{
    lemma_uuid_chars_shape(id);
    let s = uuid_chars(id);
    let t = uuid_digits_before(j);
    if j == 36 {
        assert(t == 32);
        assert(id >> 0u128 == id) by (bit_vector);
        assert(uuid_acc_at(id, j) == id as int);
    } else if uuid_is_hyphen(j) {
        assert(uuid_digits_before(j + 1) == t);
        lemma_uuid_parse_from(id, j + 1);
    } else {
        let sh2: u128 = ((31 - t) * 4) as u128;
        assert(0 <= t < 32);
        assert(nib(id, t) < 16) by {
            assert((id >> sh2) & 0xf < 16) by (bit_vector);
        }
        lemma_hex_roundtrip(nib(id, t));
        assert(hex_val(s[j]) == Some(nib(id, t) as u8));
        assert(uuid_digits_before(j + 1) == t + 1);
        if t == 0 {
            assert((id >> 124u128) & 0xf == id >> 124u128) by (bit_vector);
            assert(uuid_acc_at(id, j) * 16 + nib(id, t) == uuid_acc_at(id, j + 1));
        } else {
            let sh1: u128 = ((32 - t) * 4) as u128;
            assert((id >> sh1) * 16 + ((id >> sh2) & 0xf) == id >> sh2) by (bit_vector)
                requires
                    sh1 == sh2 + 4 && sh2 <= 120,
            ;
            assert(uuid_acc_at(id, j) * 16 + nib(id, t) == uuid_acc_at(id, j + 1));
        }
        lemma_uuid_parse_from(id, j + 1);
    }
}

/// An id written in its hyphenated text form reads back as itself: the two
/// directions of the id codec agree on every id.
pub proof fn lemma_uuid_roundtrip(id: u128)
    ensures
        parse_uuid(uuid_chars(id)) == Some(id),
{
    lemma_uuid_chars_shape(id);
    assert(uuid_digits_before(0) == 0);
    lemma_uuid_parse_from(id, 0);
}

/// Where the escaped form of `s` stands at `i` with a closing quote right
/// after it, the string reader returns exactly `s` and stops past the quote.
proof fn lemma_escape_roundtrip(whole: Seq<char>, i: int, s: Seq<char>)
    requires
        0 <= i,
        i + escape_seq(s).len() < whole.len(),
        whole.subrange(i, i + escape_seq(s).len()) == escape_seq(s),
        whole[i + escape_seq(s).len()] == '"',
    ensures
        parse_string_body(whole, i) == Some((s, i + escape_seq(s).len() + 1)),
    decreases s.len(),
{
    let e = escape_seq(s);
    assert forall|m: int| 0 <= m < e.len() implies whole[i + m] == e[m] by {
        assert(whole.subrange(i, i + e.len())[m] == whole[i + m]);
    }
    if s.len() == 0 {
        assert(whole[i] == '"');
    } else {
        let c = s[0];
        let rest = s.drop_first();
        let ec = escape_char(c);
        assert(e == ec + escape_seq(rest));
        assert forall|m: int| 0 <= m < ec.len() implies whole[i + m] == ec[m] by {
            assert(e[m] == ec[m]);
        }
        let i2 = i + ec.len();
        assert(whole.subrange(i2, i2 + escape_seq(rest).len()) =~= escape_seq(rest)) by {
            assert forall|m: int| 0 <= m < escape_seq(rest).len() implies whole.subrange(
                i2,
                i2 + escape_seq(rest).len(),
            )[m] == escape_seq(rest)[m] by {
                assert(whole.subrange(i2, i2 + escape_seq(rest).len())[m] == whole[i2 + m]);
                assert(e[ec.len() + m] == escape_seq(rest)[m]);
            }
        }
        lemma_escape_roundtrip(whole, i2, rest);
        let tail = parse_string_body(whole, i2);
        assert(tail == Some((rest, i + e.len() + 1)));
        if c == '"' {
            assert(whole[i] == '\\' && whole[i + 1] == '"');
            assert(seq![c] + rest =~= s);
        } else if c == '\\' {
            assert(whole[i] == '\\' && whole[i + 1] == '\\');
            assert(seq![c] + rest =~= s);
        } else if (c as u32) < 32 {
            assert(whole[i] == '\\' && whole[i + 1] == 'u');
            assert(whole[i + 2] == '0' && whole[i + 3] == '0');
            let hi = (c as u32) / 16;
            let lo = (c as u32) % 16;
            assert(whole[i + 4] == hex_char(hi as u128) && whole[i + 5] == hex_char(lo as u128));
            lemma_hex_roundtrip(hi as u128);
            lemma_hex_roundtrip(lo as u128);
            let v = (hi as int) * 16 + (lo as int);
            assert(v == c as u32) by (nonlinear_arith)
                requires
                    hi == (c as u32) / 16 && lo == (c as u32) % 16 && v == (hi as int) * 16 + (
                    lo as int),
            ;
            assert(is_scalar_value(v));
            assert(char_of(v) == c) by {
                assert((c as u32) == v);
                vstd::utf8::char_u32_cast(c, c as u32);
            }
            assert(seq![c] + rest =~= s);
        } else {
            assert(ec == seq![c]);
            assert(whole[i + 0] == ec[0]);
            assert(whole[i] == c);
            assert(seq![c] + rest =~= s);
        }
    }
}

proof fn lemma_escape_identity(s: Seq<char>)
    requires
        forall|k: int|
            0 <= k < s.len() ==> s[k] != '"' && s[k] != '\\' && (#[trigger] s[k] as u32) >= 32,
    ensures
        escape_seq(s) == s,
    decreases s.len(),
{
    if s.len() == 0 {
        assert(escape_seq(s) =~= s);
    } else {
        lemma_escape_identity(s.drop_first());
        assert(escape_char(s[0]) == seq![s[0]]);
        assert(seq![s[0]] + s.drop_first() =~= s);
    }
}

proof fn lemma_skip_ws_noop(s: Seq<char>, i: int)
    requires
        0 <= i <= s.len(),
        i == s.len() || !is_ws(s[i]),
    ensures
        skip_ws(s, i) == i,
{
}

proof fn lemma_expect_at(s: Seq<char>, i: int, lit: Seq<char>)
    requires
        0 <= i,
        i + lit.len() <= s.len(),
        forall|m: int| 0 <= m < lit.len() ==> s[i + m] == #[trigger] lit[m],
    ensures
        expect(s, i, lit) == Some(i + lit.len()),
{
    assert(s.subrange(i, i + lit.len()) =~= lit);
}

proof fn lemma_member_at(s: Seq<char>, i: int, qkey: Seq<char>, value: Seq<char>)
    requires
        0 <= i,
        qkey.len() > 0,
        qkey[0] == '"',
        i + qkey.len() + 2 + escape_seq(value).len() + 1 <= s.len(),
        forall|m: int| 0 <= m < qkey.len() ==> s[i + m] == #[trigger] qkey[m],
        s[i + qkey.len()] == ':',
        s[i + qkey.len() + 1] == '"',
        forall|m: int|
            0 <= m < escape_seq(value).len() ==> s[i + qkey.len() + 2 + m] == #[trigger] escape_seq(
                value,
            )[m],
        s[i + qkey.len() + 2 + escape_seq(value).len()] == '"',
    ensures
        parse_member(s, i, qkey) == Some(
            (value, i + qkey.len() + 2 + escape_seq(value).len() + 1),
        ),
{
    reveal_strlit(":");
    reveal_strlit("\"");
    let k = qkey.len();
    assert(s[i + 0] == qkey[0]);
    lemma_skip_ws_noop(s, i);
    lemma_expect_at(s, i, qkey);
    lemma_skip_ws_noop(s, i + k);
    assert forall|m: int| 0 <= m < 1 implies s[i + k + m] == (":"@)[m] by {
        assert(s[i + k] == ':');
    }
    lemma_expect_at(s, i + k, ":"@);
    lemma_skip_ws_noop(s, i + k + 1);
    assert forall|m: int| 0 <= m < 1 implies s[i + k + 1 + m] == ("\""@)[m] by {
        assert(s[i + k + 1] == '"');
    }
    lemma_expect_at(s, i + k + 1, "\""@);
    let e = escape_seq(value);
    assert(s.subrange(i + k + 2, i + k + 2 + e.len()) =~= e) by {
        assert forall|m: int| 0 <= m < e.len() implies s.subrange(i + k + 2, i + k + 2 + e.len())[m]
            == e[m] by {
            assert(s.subrange(i + k + 2, i + k + 2 + e.len())[m] == s[i + k + 2 + m]);
        }
    }
    lemma_escape_roundtrip(s, i + k + 2, value);
}

/// A post written in its wire form reads back as itself: the decoder
/// accepts exactly what the encoder writes and returns the same post,
/// member for member.
#[verifier::rlimit(80)]
pub proof fn lemma_post_roundtrip(p: PostView)
    ensures
        parse_post_chars(post_json(p)) == Some(p),
{
    reveal_strlit("{\"id\":\"");
    reveal_strlit("\",\"title\":\"");
    reveal_strlit("\",\"body\":\"");
    reveal_strlit("\",\"author\":{\"name\":\"");
    reveal_strlit("\"},\"created_at\":\"");
    reveal_strlit("\"}");
    reveal_strlit("\"id\"");
    reveal_strlit("\"title\"");
    reveal_strlit("\"body\"");
    reveal_strlit("\"author\"");
    reveal_strlit("\"name\"");
    reveal_strlit("\"created_at\"");
    reveal_strlit("{");
    reveal_strlit("}");
    reveal_strlit(",");
    reveal_strlit(":");
    reveal_strlit("\"");
    let s = post_json(p);
    let l1 = "{\"id\":\""@;
    let u = uuid_chars(p.id);
    let l2 = "\",\"title\":\""@;
    let t = escape_seq(p.title);
    let l3 = "\",\"body\":\""@;
    let b = escape_seq(p.body);
    let l4 = "\",\"author\":{\"name\":\""@;
    let n = escape_seq(p.author.name);
    let l5 = "\"},\"created_at\":\""@;
    let c = escape_seq(p.created_at);
    let l6 = "\"}"@;
    lemma_uuid_chars_shape(p.id);
    assert(u.len() == 36);
    assert(l1.len() == 7 && l2.len() == 11 && l3.len() == 10 && l4.len() == 20 && l5.len() == 17
        && l6.len() == 2);
    let o2 = 43int;
    let o3 = 54int;
    let o4 = o3 + t.len();
    let o5 = o4 + 10;
    let o6 = o5 + b.len();
    let o7 = o6 + 20;
    let o8 = o7 + n.len();
    let o9 = o8 + 17;
    let o10 = o9 + c.len();
    assert(s.len() == o10 + 2);
    assert forall|m: int| 0 <= m < 7 implies s[m] == l1[m] by {}
    assert forall|m: int| 0 <= m < 36 implies s[7 + m] == u[m] by {}
    assert forall|m: int| 0 <= m < 11 implies s[o2 + m] == l2[m] by {}
    assert forall|m: int| 0 <= m < t.len() implies s[o3 + m] == t[m] by {}
    assert forall|m: int| 0 <= m < 10 implies s[o4 + m] == l3[m] by {}
    assert forall|m: int| 0 <= m < b.len() implies s[o5 + m] == b[m] by {}
    assert forall|m: int| 0 <= m < 20 implies s[o6 + m] == l4[m] by {}
    assert forall|m: int| 0 <= m < n.len() implies s[o7 + m] == n[m] by {}
    assert forall|m: int| 0 <= m < 17 implies s[o8 + m] == l5[m] by {}
    assert forall|m: int| 0 <= m < c.len() implies s[o9 + m] == c[m] by {}
    assert forall|m: int| 0 <= m < 2 implies s[o10 + m] == l6[m] by {}
    // the id text needs no escaping
    assert forall|k: int| 0 <= k < u.len() implies u[k] != '"' && u[k] != '\\' && (#[trigger] u[k]
        as u32) >= 32 by {
        if uuid_is_hyphen(k) {
            assert(u[k] == '-');
        } else {
            let dig = uuid_digits_before(k);
            let sh2: u128 = ((31 - dig) * 4) as u128;
            let idv = p.id;
            assert((idv >> sh2) & 0xf < 16) by (bit_vector);
            assert(u[k] == hex_char(nib(p.id, dig)));
        }
    }
    lemma_escape_identity(u);
    // opening brace
    lemma_skip_ws_noop(s, 0);
    assert forall|m: int| 0 <= m < 1 implies s[0 + m] == ("{"@)[m] by {
        assert(s[0] == l1[0]);
    }
    lemma_expect_at(s, 0, "{"@);
    // id member
    assert forall|m: int| 0 <= m < 4 implies s[1 + m] == ("\"id\""@)[m] by {
        assert(s[1 + m] == l1[1 + m]);
    }
    assert(s[5] == ':' && s[6] == '"');
    assert forall|m: int| 0 <= m < 36 implies s[7 + m] == escape_seq(u)[m] by {}
    assert(s[43] == '"');
    lemma_member_at(s, 1, "\"id\""@, u);
    lemma_uuid_roundtrip(p.id);
    // comma, title member
    lemma_skip_ws_noop(s, 44);
    assert forall|m: int| 0 <= m < 1 implies s[44 + m] == (","@)[m] by {
        assert(s[44] == l2[1]);
    }
    lemma_expect_at(s, 44, ","@);
    assert forall|m: int| 0 <= m < 7 implies s[45 + m] == ("\"title\""@)[m] by {
        assert(s[45 + m] == l2[2 + m]);
    }
    assert(s[52] == ':' && s[53] == '"');
    assert(s[o4] == '"');
    lemma_member_at(s, 45, "\"title\""@, p.title);
    // comma, body member
    lemma_skip_ws_noop(s, o4 + 1);
    assert forall|m: int| 0 <= m < 1 implies s[o4 + 1 + m] == (","@)[m] by {
        assert(s[o4 + 1] == l3[1]);
    }
    lemma_expect_at(s, o4 + 1, ","@);
    assert forall|m: int| 0 <= m < 6 implies s[o4 + 2 + m] == ("\"body\""@)[m] by {
        assert(s[o4 + 2 + m] == l3[2 + m]);
    }
    assert(s[o4 + 8] == ':' && s[o4 + 9] == '"');
    assert(s[o6] == '"');
    lemma_member_at(s, o4 + 2, "\"body\""@, p.body);
    // comma, author object with its name member
    lemma_skip_ws_noop(s, o6 + 1);
    assert forall|m: int| 0 <= m < 1 implies s[o6 + 1 + m] == (","@)[m] by {
        assert(s[o6 + 1] == l4[1]);
    }
    lemma_expect_at(s, o6 + 1, ","@);
    lemma_skip_ws_noop(s, o6 + 2);
    assert forall|m: int| 0 <= m < 8 implies s[o6 + 2 + m] == ("\"author\""@)[m] by {
        assert(s[o6 + 2 + m] == l4[2 + m]);
    }
    lemma_expect_at(s, o6 + 2, "\"author\""@);
    lemma_skip_ws_noop(s, o6 + 10);
    assert forall|m: int| 0 <= m < 1 implies s[o6 + 10 + m] == (":"@)[m] by {
        assert(s[o6 + 10] == l4[10]);
    }
    lemma_expect_at(s, o6 + 10, ":"@);
    lemma_skip_ws_noop(s, o6 + 11);
    assert forall|m: int| 0 <= m < 1 implies s[o6 + 11 + m] == ("{"@)[m] by {
        assert(s[o6 + 11] == l4[11]);
    }
    lemma_expect_at(s, o6 + 11, "{"@);
    assert forall|m: int| 0 <= m < 6 implies s[o6 + 12 + m] == ("\"name\""@)[m] by {
        assert(s[o6 + 12 + m] == l4[12 + m]);
    }
    assert(s[o6 + 18] == ':' && s[o6 + 19] == '"');
    assert(s[o8] == '"');
    lemma_member_at(s, o6 + 12, "\"name\""@, p.author.name);
    // closing brace of the author object, comma, created_at member
    lemma_skip_ws_noop(s, o8 + 1);
    assert forall|m: int| 0 <= m < 1 implies s[o8 + 1 + m] == ("}"@)[m] by {
        assert(s[o8 + 1] == l5[1]);
    }
    lemma_expect_at(s, o8 + 1, "}"@);
    lemma_skip_ws_noop(s, o8 + 2);
    assert forall|m: int| 0 <= m < 1 implies s[o8 + 2 + m] == (","@)[m] by {
        assert(s[o8 + 2] == l5[2]);
    }
    lemma_expect_at(s, o8 + 2, ","@);
    assert forall|m: int| 0 <= m < 12 implies s[o8 + 3 + m] == ("\"created_at\""@)[m] by {
        assert(s[o8 + 3 + m] == l5[3 + m]);
    }
    assert(s[o8 + 15] == ':' && s[o8 + 16] == '"');
    assert(s[o10] == '"');
    lemma_member_at(s, o8 + 3, "\"created_at\""@, p.created_at);
    // closing brace, end of text
    lemma_skip_ws_noop(s, o10 + 1);
    assert forall|m: int| 0 <= m < 1 implies s[o10 + 1 + m] == ("}"@)[m] by {
        assert(s[o10 + 1] == l6[1]);
    }
    lemma_expect_at(s, o10 + 1, "}"@);
    lemma_skip_ws_noop(s, o10 + 2);
    assert(p == PostView {
        id: p.id,
        title: p.title,
        body: p.body,
        author: AuthorView { name: p.author.name },
        created_at: p.created_at,
    });
}

fn skip_ws_x(v: &Vec<char>, i: usize) -> (r: usize)
    requires
        i <= v.len(),
    ensures
        r == skip_ws(v@, i as int),
        i <= r <= v.len(),
{
    let mut j: usize = i;
    while j < v.len() && (v[j] == ' ' || v[j] == '\t' || v[j] == '\n' || v[j] == '\r')
        invariant
            i <= j <= v.len(),
            skip_ws(v@, i as int) == skip_ws(v@, j as int),
        decreases v.len() - j,
    {
        j = j + 1;
    }
    proof {
        assert(skip_ws(v@, j as int) == j as int);
    }
    j
}

fn expect_x(v: &Vec<char>, i: usize, lit: &str) -> (r: Option<usize>)
    requires
        i <= v.len(),
    ensures
        match r {
            Some(j) => expect(v@, i as int, lit@) == Some(j as int) && i <= j <= v.len(),
            None => expect(v@, i as int, lit@) is None,
        },
{
    let n = lit.unicode_len();
    if n > v.len() - i {
        return None;
    }
    for k in 0..n
        invariant
            n == lit@.len(),
            i + n <= v.len(),
            v@.subrange(i as int, i + k) == lit@.take(k as int),
    {
        if v[i + k] != lit.get_char(k) {
            proof {
                assert(v@.subrange(i as int, i + n)[k as int] == v@[i + k]);
            }
            return None;
        }
        proof {
            assert(v@.subrange(i as int, i + k + 1) =~= lit@.take(k + 1));
        }
    }
    proof {
        assert(lit@.take(n as int) =~= lit@);
        assert(v@.subrange(i as int, i + n) == lit@);
    }
    Some(i + n)
}

fn simple_escape_x(e: char) -> (r: Option<char>)
    ensures
        r == simple_escape(e),
{
    if e == '"' {
        Some('"')
    } else if e == '\\' {
        Some('\\')
    } else if e == '/' {
        Some('/')
    } else if e == 'b' {
        Some('\u{0008}')
    } else if e == 'f' {
        Some('\u{000C}')
    } else if e == 'n' {
        Some('\n')
    } else if e == 'r' {
        Some('\r')
    } else if e == 't' {
        Some('\t')
    } else {
        None
    }
}

fn parse_string_at(v: &Vec<char>, i: usize) -> (r: Option<(Vec<char>, usize)>)
    requires
        i <= v.len(),
    ensures
        match r {
            Some(p) => parse_string_body(v@, i as int) == Some((p.0@, p.1 as int)) && p.1
                <= v.len(),
            None => parse_string_body(v@, i as int) is None,
        },
{
    let mut content: Vec<char> = Vec::new();
    let mut j: usize = i;
    proof {
        assert(forall|r0: Seq<char>| Seq::<char>::empty() + r0 =~= r0);
    }
    loop
        invariant
            i <= j <= v.len(),
            match parse_string_body(v@, j as int) {
                Some(r0) => parse_string_body(v@, i as int) == Some((content@ + r0.0, r0.1)),
                None => parse_string_body(v@, i as int) is None,
            },
        decreases v.len() - j,
    {
        if j >= v.len() {
            return None;
        }
        let c = v[j];
        if c == '"' {
            proof {
                assert(content@ + Seq::<char>::empty() =~= content@);
            }
            return Some((content, j + 1));
        } else if c == '\\' {
            if v.len() - j < 2 {
                return None;
            }
            let e = v[j + 1];
            match simple_escape_x(e) {
                Some(d) => {
                    let ghost before = content@;
                    content.push(d);
                    proof {
                        assert(forall|r0: Seq<char>|
                            before.push(d) + r0 =~= before + (seq![d] + r0));
                    }
                    j = j + 2;
                },
                None => {
                    if e != 'u' {
                        return None;
                    }
                    if v.len() - j < 6 {
                        return None;
                    }
                    let h0 = hex_val_x(v[j + 2]);
                    let h1 = hex_val_x(v[j + 3]);
                    let h2 = hex_val_x(v[j + 4]);
                    let h3 = hex_val_x(v[j + 5]);
                    match (h0, h1, h2, h3) {
                        (Some(d0), Some(d1), Some(d2), Some(d3)) => {
                            let w: u32 = (d0 as u32) * 4096 + (d1 as u32) * 256 + (d2 as u32) * 16
                                + (d3 as u32);
                            match char_from_u32(w) {
                                Some(ch) => {
                                    let ghost before = content@;
                                    content.push(ch);
                                    proof {
                                        assert(forall|r0: Seq<char>|
                                            before.push(ch) + r0 =~= before + (seq![ch] + r0));
                                    }
                                    j = j + 6;
                                },
                                None => {
                                    return None;
                                },
                            }
                        },
                        _ => {
                            return None;
                        },
                    }
                },
            }
        } else {
            let ghost before = content@;
            content.push(c);
            proof {
                assert(forall|r0: Seq<char>| before.push(c) + r0 =~= before + (seq![c] + r0));
            }
            j = j + 1;
        }
    }
}

fn parse_uuid_x(v: &Vec<char>) -> (r: Option<u128>)
    ensures
        match r {
            Some(x) => parse_uuid(v@) == Some(x),
            None => parse_uuid(v@) is None,
        },
{
    if v.len() != 36 {
        return None;
    }
    let mut acc: u128 = 0;
    for j in 0..36usize
        invariant
            v.len() == 36,
            parse_uuid_from(v@, 0, 0) == parse_uuid_from(v@, j as int, acc as int),
            acc < pow16(uuid_digits_before(j as int) as nat),
            uuid_digits_before(j as int) <= 32,
    {
        let c = v[j];
        if j == 8 || j == 13 || j == 18 || j == 23 {
            if c != '-' {
                return None;
            }
        } else {
            match hex_val_x(c) {
                Some(d) => {
                    proof {
                        lemma_pow16_le(uuid_digits_before(j as int) as nat, 31);
                        assert(pow16(31) * 16 == pow16(32));
                        lemma_pow16_32();
                    }
                    acc = acc * 16 + (d as u128);
                },
                None => {
                    return None;
                },
            }
        }
    }
    Some(acc)
}

fn chars_to_string(v: &Vec<char>) -> (s: String)
    ensures
        s@ == v@,
{
    let mut s = String::new();
    let n = v.len();
    proof {
        assert(s@ =~= v@.take(0));
    }
    for i in 0..n
        invariant
            n == v.len(),
            s@ == v@.take(i as int),
    {
        push_char(&mut s, v[i]);
        proof {
            assert(s@ =~= v@.take(i + 1));
        }
    }
    proof {
        assert(v@.take(n as int) =~= v@);
    }
    s
}

fn parse_member_x(v: &Vec<char>, i: usize, qkey: &str) -> (r: Option<(Vec<char>, usize)>)
    requires
        i <= v.len(),
    ensures
        match r {
            Some(p) => parse_member(v@, i as int, qkey@) == Some((p.0@, p.1 as int)) && p.1
                <= v.len(),
            None => parse_member(v@, i as int, qkey@) is None,
        },
{
    let j = skip_ws_x(v, i);
    let j1 = match expect_x(v, j, qkey) {
        Some(x) => x,
        None => {
            return None;
        },
    };
    let j1w = skip_ws_x(v, j1);
    let j2 = match expect_x(v, j1w, ":") {
        Some(x) => x,
        None => {
            return None;
        },
    };
    let j2w = skip_ws_x(v, j2);
    let j3 = match expect_x(v, j2w, "\"") {
        Some(x) => x,
        None => {
            return None;
        },
    };
    parse_string_at(v, j3)
}

/// Reads one post from the characters of its wire form.
pub fn parse_post(v: &Vec<char>) -> (r: Option<Post>)
    ensures
        match r {
            Some(p) => parse_post_chars(v@) == Some(p@),
            None => parse_post_chars(v@) is None,
        },
{
    let i0 = skip_ws_x(v, 0);
    let i1 = match expect_x(v, i0, "{") {
        Some(x) => x,
        None => {
            return None;
        },
    };
    let idm = match parse_member_x(v, i1, "\"id\"") {
        Some(p) => p,
        None => {
            return None;
        },
    };
    let i2: usize = idm.1;
    let id = match parse_uuid_x(&idm.0) {
        Some(x) => x,
        None => {
            return None;
        },
    };
    let i2w = skip_ws_x(v, i2);
    let i3 = match expect_x(v, i2w, ",") {
        Some(x) => x,
        None => {
            return None;
        },
    };
    let titlem = match parse_member_x(v, i3, "\"title\"") {
        Some(p) => p,
        None => {
            return None;
        },
    };
    let i4: usize = titlem.1;
    let i4w = skip_ws_x(v, i4);
    let i5 = match expect_x(v, i4w, ",") {
        Some(x) => x,
        None => {
            return None;
        },
    };
    let bodym = match parse_member_x(v, i5, "\"body\"") {
        Some(p) => p,
        None => {
            return None;
        },
    };
    let i6: usize = bodym.1;
    let i6w = skip_ws_x(v, i6);
    let i7 = match expect_x(v, i6w, ",") {
        Some(x) => x,
        None => {
            return None;
        },
    };
    let i7w = skip_ws_x(v, i7);
    let j1 = match expect_x(v, i7w, "\"author\"") {
        Some(x) => x,
        None => {
            return None;
        },
    };
    let j1w = skip_ws_x(v, j1);
    let j2 = match expect_x(v, j1w, ":") {
        Some(x) => x,
        None => {
            return None;
        },
    };
    let j2w = skip_ws_x(v, j2);
    let j3 = match expect_x(v, j2w, "{") {
        Some(x) => x,
        None => {
            return None;
        },
    };
    let namem = match parse_member_x(v, j3, "\"name\"") {
        Some(p) => p,
        None => {
            return None;
        },
    };
    let j4: usize = namem.1;
    let j4w = skip_ws_x(v, j4);
    let i8 = match expect_x(v, j4w, "}") {
        Some(x) => x,
        None => {
            return None;
        },
    };
    let i8w = skip_ws_x(v, i8);
    let i9 = match expect_x(v, i8w, ",") {
        Some(x) => x,
        None => {
            return None;
        },
    };
    let createdm = match parse_member_x(v, i9, "\"created_at\"") {
        Some(p) => p,
        None => {
            return None;
        },
    };
    let i10: usize = createdm.1;
    let i10w = skip_ws_x(v, i10);
    let i11 = match expect_x(v, i10w, "}") {
        Some(x) => x,
        None => {
            return None;
        },
    };
    if skip_ws_x(v, i11) != v.len() {
        return None;
    }
    Some(
        Post {
            id: PostId { value: id },
            title: chars_to_string(&titlem.0),
            body: chars_to_string(&bodym.0),
            author: Author { name: chars_to_string(&namem.0) },
            created_at: chars_to_string(&createdm.0),
        },
    )
}

/// Reads one post from its JSON text.
pub fn decode_post(s: &str) -> (r: Option<Post>)
    ensures
        match r {
            Some(p) => parse_post_chars(s@) == Some(p@),
            None => parse_post_chars(s@) is None,
        },
{
    let v = str_chars(s);
    parse_post(&v)
}

/// Reads a post id from its hyphenated text form.
pub fn parse_post_id(s: &str) -> (r: Option<PostId>)
    ensures
        match r {
            Some(p) => parse_uuid(s@) == Some(p@),
            None => parse_uuid(s@) is None,
        },
{
    let v = str_chars(s);
    match parse_uuid_x(&v) {
        Some(x) => Some(PostId { value: x }),
        None => None,
    }
}

} // verus!



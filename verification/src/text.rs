//! Byte- and character-level string primitives with their specifications.
//!
//! Searches work on the UTF-8 bytes of a string, as `str::find` does: a
//! position is a byte offset.  Whitespace handling works on characters, as
//! `str::trim` does.

use vstd::prelude::*;
use vstd::utf8::*;
use vstd::string::StringSliceAdditionalSpecFns;

verus! {

/// `n` occurs in `h` at byte offset `i`.
pub open spec fn matches_at(h: Seq<u8>, n: Seq<u8>, i: int) -> bool {
    0 <= i && i + n.len() <= h.len() && h.subrange(i, i + n.len()) == n
}

/// Leftmost offset at or after `from` where `n` occurs in `h`.
pub open spec fn first_match_from(h: Seq<u8>, n: Seq<u8>, from: int) -> Option<int>
    decreases h.len() + 1 - from,
{
    if from < 0 || from + n.len() > h.len() {
        None
    } else if matches_at(h, n, from) {
        Some(from)
    } else {
        first_match_from(h, n, from + 1)
    }
}

/// Leftmost offset where `n` occurs in `h` (what `str::find` returns).
pub open spec fn first_match(h: Seq<u8>, n: Seq<u8>) -> Option<int> {
    first_match_from(h, n, 0)
}

/// `h` holds `n` somewhere.
pub open spec fn holds(h: Seq<u8>, n: Seq<u8>) -> bool {
    first_match(h, n) is Some
}

/// An optional offset as a mathematical integer.
pub open spec fn as_int_opt(r: Option<usize>) -> Option<int> {
    match r {
        Some(i) => Some(i as int),
        None => None,
    }
}

/// `first_match_from` is the least matching offset at or after `from`.
pub proof fn lemma_first_match_from(h: Seq<u8>, n: Seq<u8>, from: int)
    requires
        0 <= from,
    ensures
        match first_match_from(h, n, from) {
            Some(i) => from <= i && matches_at(h, n, i) && forall|j: int|
                from <= j < i ==> !matches_at(h, n, j),
            None => forall|j: int| from <= j ==> !matches_at(h, n, j),
        },
    decreases h.len() + 1 - from,
{
    if from + n.len() > h.len() {
    } else if matches_at(h, n, from) {
    } else {
        lemma_first_match_from(h, n, from + 1);
    }
}

/// A matching offset with no earlier match is what `first_match` gives.
pub proof fn lemma_first_match_is(h: Seq<u8>, n: Seq<u8>, i: int)
    requires
        matches_at(h, n, i),
        forall|j: int| 0 <= j < i ==> !matches_at(h, n, j),
    ensures
        first_match(h, n) == Some(i),
{
    lemma_first_match_from(h, n, 0);
}

/// No matching offset means `first_match` gives nothing.
pub proof fn lemma_first_match_none(h: Seq<u8>, n: Seq<u8>)
    requires
        forall|j: int| 0 <= j ==> !matches_at(h, n, j),
    ensures
        first_match(h, n) is None,
{
    lemma_first_match_from(h, n, 0);
}

/// Does `n` occur in `h` at offset `i`?
fn matches_here(h: &[u8], n: &[u8], i: usize) -> (r: bool)
    requires
        i + n@.len() <= h@.len(),
    ensures
        r == matches_at(h@, n@, i as int),
{
    let hl = h.len();
    let mut k: usize = 0;
    while k < n.len()
        invariant
            k <= n@.len(),
            i + n@.len() <= h@.len(),
            hl == h@.len(),
            forall|t: int| 0 <= t < k ==> h@[i + t] == n@[t],
        decreases n@.len() - k,
    {
        if h[i + k] != n[k] {
            assert(h@.subrange(i as int, i + n@.len())[k as int] != n@[k as int]);
            return false;
        }
        k = k + 1;
    }
    assert(h@.subrange(i as int, i + n@.len()) =~= n@);
    true
}

/// Byte offset of the leftmost occurrence of `n` in `h`.
pub fn find_bytes(h: &[u8], n: &[u8]) -> (r: Option<usize>)
    ensures
        as_int_opt(r) == first_match(h@, n@),
{
    if n.len() > h.len() {
        proof { lemma_first_match_from(h@, n@, 0); }
        return None;
    }
    let last = h.len() - n.len();
    let mut i: usize = 0;
    loop
        invariant
            i <= last,
            last + n@.len() == h@.len(),
            forall|j: int| 0 <= j < i ==> !matches_at(h@, n@, j),
        decreases last - i,
    {
        if matches_here(h, n, i) {
            proof { lemma_first_match_is(h@, n@, i as int); }
            return Some(i);
        }
        if i == last {
            proof { lemma_first_match_none(h@, n@); }
            return None;
        }
        i = i + 1;
    }
}

/// The bytes of a string always form valid UTF-8.
pub proof fn lemma_str_valid(s: &str)
    ensures
        valid_utf8(s.spec_bytes()),
{
    encode_utf8_valid_utf8(s@);
}

/// An ASCII byte in valid UTF-8 has a character boundary on each side.
pub proof fn lemma_ascii_boundaries(b: Seq<u8>, i: int)
    requires
        valid_utf8(b),
        0 <= i < b.len(),
        b[i] < 0x80,
    ensures
        is_char_boundary(b, i),
        is_char_boundary(b, i + 1),
{
    is_char_boundary_iff_not_is_continuation_byte(b, i);
    if i + 1 == b.len() {
        is_char_boundary_start_end_of_seq(b);
    } else {
        valid_utf8_split(b, i);
        let s = b.subrange(i, b.len() as int);
        assert(s[0] == b[i]);
        assert(valid_first_scalar(s) && valid_utf8(pop_first_scalar(s)));
        let t = pop_first_scalar(s);
        assert(t =~= b.subrange(i + 1, b.len() as int));
        assert(t.len() > 0);
        assert(valid_first_scalar(t));
        assert(t[0] == b[i + 1]);
        is_char_boundary_iff_not_is_continuation_byte(b, i + 1);
    }
}

/// Boundaries of a string are boundaries of any prefix that contains them.
pub proof fn lemma_boundary_in_prefix(b: Seq<u8>, a: int, e: int)
    requires
        valid_utf8(b),
        0 <= a <= e <= b.len(),
        is_char_boundary(b, a),
        is_char_boundary(b, e),
    ensures
        valid_utf8(b.subrange(0, e)),
        is_char_boundary(b.subrange(0, e), a),
{
    valid_utf8_split(b, e);
    let p = b.subrange(0, e);
    is_char_boundary_start_end_of_seq(p);
    if a < e {
        is_char_boundary_iff_not_is_continuation_byte(b, a);
        is_char_boundary_iff_not_is_continuation_byte(p, a);
    }
}

/// The part of `s` between byte offsets `a` and `b` (what `&s[a..b]` gives).
pub fn piece(s: &str, a: usize, b: usize) -> (r: &str)
    requires
        a <= b <= s.spec_bytes().len(),
        is_char_boundary(s.spec_bytes(), a as int),
        is_char_boundary(s.spec_bytes(), b as int),
    ensures
        r.spec_bytes() == s.spec_bytes().subrange(a as int, b as int),
{
    proof {
        lemma_str_valid(s);
        lemma_boundary_in_prefix(s.spec_bytes(), a as int, b as int);
    }
    let (head, _) = s.split_at(b);
    let (_, mid) = head.split_at(a);
    proof {
        assert(mid.spec_bytes() =~= s.spec_bytes().subrange(a as int, b as int));
    }
    mid
}

/// `p` is a prefix of `h`.
pub open spec fn starts_with(h: Seq<u8>, p: Seq<u8>) -> bool {
    matches_at(h, p, 0)
}

/// `p` is a suffix of `h`.
pub open spec fn ends_with(h: Seq<u8>, p: Seq<u8>) -> bool {
    matches_at(h, p, h.len() - p.len())
}

/// Offset of the last `b` in `h` (what `str::rfind` gives for an ASCII char).
pub open spec fn last_index_of(h: Seq<u8>, b: u8) -> Option<int>
    decreases h.len(),
{
    if h.len() == 0 {
        None
    } else if h.last() == b {
        Some(h.len() - 1)
    } else {
        last_index_of(h.drop_last(), b)
    }
}

pub fn contains_bytes(h: &[u8], n: &[u8]) -> (r: bool)
    ensures
        r == holds(h@, n@),
{
    find_bytes(h, n).is_some()
}

pub fn starts_with_bytes(h: &[u8], p: &[u8]) -> (r: bool)
    ensures
        r == starts_with(h@, p@),
{
    if p.len() > h.len() {
        false
    } else {
        matches_here(h, p, 0)
    }
}

pub fn ends_with_bytes(h: &[u8], p: &[u8]) -> (r: bool)
    ensures
        r == ends_with(h@, p@),
{
    if p.len() > h.len() {
        false
    } else {
        matches_here(h, p, h.len() - p.len())
    }
}

pub fn bytes_eq(a: &[u8], b: &[u8]) -> (r: bool)
    ensures
        r == (a@ == b@),
{
    if a.len() != b.len() {
        false
    } else {
        let r = matches_here(a, b, 0);
        proof {
            assert(a@.subrange(0, b@.len() as int) =~= a@);
        }
        r
    }
}

/// Two strings hold the same characters.
pub fn str_eq(a: &str, b: &str) -> (r: bool)
    ensures
        r == (a@ == b@),
{
    proof {
        encode_utf8_decode_utf8(a@);
        encode_utf8_decode_utf8(b@);
    }
    bytes_eq(a.as_bytes(), b.as_bytes())
}

/// Offset of the last byte `b` in `h`.
pub fn rfind_byte(h: &[u8], b: u8) -> (r: Option<usize>)
    ensures
        as_int_opt(r) == last_index_of(h@, b),
{
    let mut i: usize = h.len();
    proof {
        assert(h@.subrange(0, i as int) =~= h@);
    }
    while i > 0
        invariant
            i <= h@.len(),
            last_index_of(h@, b) == last_index_of(h@.subrange(0, i as int), b),
        decreases i,
    {
        let ghost pre = h@.subrange(0, i as int);
        if h[i - 1] == b {
            return Some(i - 1);
        }
        proof {
            assert(pre.drop_last() =~= h@.subrange(0, i - 1));
        }
        i = i - 1;
    }
    proof {
        assert(h@.subrange(0, 0) =~= Seq::<u8>::empty());
    }
    None
}

/// The UTF-8 encoding of a concatenation is the concatenation of the encodings.
pub proof fn lemma_encode_concat(a: Seq<char>, b: Seq<char>)
    ensures
        encode_utf8(a + b) == encode_utf8(a) + encode_utf8(b),
    decreases a.len(),
{
    if a.len() == 0 {
        assert(a + b =~= b);
        assert(encode_utf8(a) =~= Seq::<u8>::empty());
        assert(encode_utf8(a) + encode_utf8(b) =~= encode_utf8(b));
    } else {
        lemma_encode_concat(a.drop_first(), b);
        assert((a + b).drop_first() =~= a.drop_first() + b);
        assert((a + b)[0] == a[0]);
        assert(encode_utf8(a + b) =~= encode_utf8(a) + encode_utf8(b));
    }
}

/// `c` has the Unicode `White_Space` property (what `char::is_whitespace` tests).
pub open spec fn is_white_space(c: char) -> bool {
    let u = c as u32;
    ||| 0x09 <= u <= 0x0d
    ||| u == 0x20
    ||| u == 0x85
    ||| u == 0xa0
    ||| u == 0x1680
    ||| 0x2000 <= u <= 0x200a
    ||| u == 0x2028
    ||| u == 0x2029
    ||| u == 0x202f
    ||| u == 0x205f
    ||| u == 0x3000
}

pub fn is_whitespace(c: char) -> (r: bool)
    ensures
        r == is_white_space(c),
{
    let u = c as u32;
    (0x09 <= u && u <= 0x0d) || u == 0x20 || u == 0x85 || u == 0xa0 || u == 0x1680 || (0x2000
        <= u && u <= 0x200a) || u == 0x2028 || u == 0x2029 || u == 0x202f || u == 0x205f || u
        == 0x3000
}

/// `s` without its leading whitespace.
pub open spec fn trim_start_chars(s: Seq<char>) -> Seq<char>
    decreases s.len(),
{
    if s.len() > 0 && is_white_space(s[0]) {
        trim_start_chars(s.drop_first())
    } else {
        s
    }
}

/// `s` without its trailing whitespace.
pub open spec fn trim_end_chars(s: Seq<char>) -> Seq<char>
    decreases s.len(),
{
    if s.len() > 0 && is_white_space(s.last()) {
        trim_end_chars(s.drop_last())
    } else {
        s
    }
}

/// `s` without leading and trailing whitespace (what `str::trim` gives).
pub open spec fn trim_chars(s: Seq<char>) -> Seq<char> {
    trim_end_chars(trim_start_chars(s))
}

/// `s` without leading and trailing whitespace.
pub fn trim(s: &str) -> (r: &str)
    ensures
        r@ == trim_chars(s@),
{
    let n = s.unicode_len();
    let mut a: usize = 0;
    proof {
        assert(s@.skip(0) =~= s@);
    }
    while a < n && is_whitespace(s.get_char(a))
        invariant
            a <= n,
            n == s@.len(),
            trim_start_chars(s@) == trim_start_chars(s@.skip(a as int)),
        decreases n - a,
    {
        proof {
            assert(s@.skip(a as int).drop_first() =~= s@.skip(a + 1));
        }
        a = a + 1;
    }
    proof {
        assert(trim_start_chars(s@) == s@.subrange(a as int, n as int));
    }
    let mut b: usize = n;
    while b > a && is_whitespace(s.get_char(b - 1))
        invariant
            a <= b <= n,
            n == s@.len(),
            trim_end_chars(s@.subrange(a as int, n as int)) == trim_end_chars(
                s@.subrange(a as int, b as int),
            ),
        decreases b - a,
    {
        proof {
            assert(s@.subrange(a as int, b as int).drop_last() =~= s@.subrange(a as int, b - 1));
        }
        b = b - 1;
    }
    s.substring_char(a, b)
}

/// Unicode lowercase mapping of a character sequence.
pub uninterp spec fn unicode_lowercase(s: Seq<char>) -> Seq<char>;

/// A character with `A`..`Z` turned into `a`..`z`.
pub open spec fn ascii_lower_char(c: char) -> char {
    if 'A' <= c && c <= 'Z' {
        ((c as int) + 32) as char
    } else {
        c
    }
}

/// ASCII lowercase of a character sequence.
pub open spec fn ascii_lowercase(s: Seq<char>) -> Seq<char> {
    s.map_values(|c: char| ascii_lower_char(c))
}

/// Calls `str::to_lowercase`; the result is Unicode's lowercase mapping of
/// `s`, which this crate names without spelling it out.  Of ASCII text it
/// states what that mapping is there: `A`..`Z` become `a`..`z`, and every
/// other ASCII character, having no lowercase form, stays as it is.
#[verifier::external_body]
pub(crate) fn to_lowercase(s: &str) -> (r: String)
    ensures
        r@ == unicode_lowercase(s@),
        is_ascii_chars(s@) ==> r@ == ascii_lowercase(s@),
{
    s.to_lowercase()
}

/// The bytes of an ASCII string are its characters, one byte each, all below 0x80.
pub proof fn lemma_ascii_str(s: &str)
    requires
        is_ascii_chars(s@),
    ensures
        s.spec_bytes().len() == s@.len(),
        forall|i: int|
            0 <= i < s@.len() ==> s.spec_bytes()[i] < 0x80 && s.spec_bytes()[i] == s@[i] as u8,
{
    is_ascii_chars_encode_utf8(s@);
    is_ascii_chars_nat_bound(s@);
}

/// What a successful search tells: the bytes at the offset are the needle's.
pub proof fn lemma_found(h: Seq<u8>, n: Seq<u8>, i: int)
    requires
        first_match(h, n) == Some(i),
    ensures
        0 <= i,
        i + n.len() <= h.len(),
        forall|k: int| 0 <= k < n.len() ==> h[i + k] == n[k],
        forall|j: int| 0 <= j < i ==> !matches_at(h, n, j),
{
    lemma_first_match_from(h, n, 0);
    assert forall|k: int| 0 <= k < n.len() implies h[i + k] == n[k] by {
        assert(h.subrange(i, i + n.len())[k] == h[i + k]);
    }
}

/// `v` with `s` appended.
pub fn push_bytes(v: &mut Vec<u8>, s: &[u8])
    ensures
        final(v)@ == old(v)@ + s@,
{
    let mut i: usize = 0;
    while i < s.len()
        invariant
            i <= s@.len(),
            v@ == old(v)@ + s@.subrange(0, i as int),
        decreases s@.len() - i,
    {
        v.push(s[i]);
        i = i + 1;
        proof {
            assert(v@ =~= old(v)@ + s@.subrange(0, i as int));
        }
    }
    proof {
        assert(s@.subrange(0, i as int) =~= s@);
    }
}

/// The last occurrence of a byte lies inside the sequence and holds that byte.
pub proof fn lemma_last_index(h: Seq<u8>, b: u8)
    ensures
        last_index_of(h, b) matches Some(i) ==> 0 <= i < h.len() && h[i] == b,
    decreases h.len(),
{
    if h.len() > 0 && h.last() != b {
        lemma_last_index(h.drop_last(), b);
    }
}

/// `h` with every occurrence of `f`, taken from the left without overlap,
/// replaced by `t` (what `str::replace` gives).
pub open spec fn replace_spec(h: Seq<u8>, f: Seq<u8>, t: Seq<u8>) -> Seq<u8>
    decreases h.len(),
{
    if f.len() == 0 {
        h
    } else {
        match first_match(h, f) {
            None => h,
            Some(i) => {
                proof {
                    lemma_found(h, f, i);
                }
                h.subrange(0, i) + t + replace_spec(h.subrange(i + f.len(), h.len() as int), f, t)
            },
        }
    }
}

/// A string's bytes are the encoding of its characters.
pub proof fn lemma_string_bytes(s: &str)
    ensures
        decode_utf8(s.spec_bytes()) == s@,
{
    encode_utf8_decode_utf8(s@);
}

/// `s` with every occurrence of `from` replaced by `to`.  The pattern is a
/// non-empty text that starts and ends with ASCII characters.
pub fn replace_all(s: &str, from: &str, to: &str) -> (r: String)
    requires
        from.spec_bytes().len() > 0,
        from.spec_bytes()[0] < 0x80,
        from.spec_bytes().last() < 0x80,
    ensures
        encode_utf8(r@) == replace_spec(s.spec_bytes(), from.spec_bytes(), to.spec_bytes()),
{
    let ghost hb = s.spec_bytes();
    let ghost fb = from.spec_bytes();
    let ghost tb = to.spec_bytes();
    let h = s.as_bytes();
    let f = from.as_bytes();
    let mut out = String::new();
    let mut pos: usize = 0;
    proof {
        lemma_str_valid(s);
        is_char_boundary_start_end_of_seq(hb);
        assert(hb.subrange(0, hb.len() as int) =~= hb);
        assert(encode_utf8(out@) =~= Seq::<u8>::empty());
        assert(Seq::<u8>::empty() + replace_spec(hb, fb, tb) =~= replace_spec(hb, fb, tb));
    }
    loop
        invariant
            pos <= hb.len(),
            hb == s.spec_bytes(),
            fb == from.spec_bytes(),
            tb == to.spec_bytes(),
            h@ == hb,
            f@ == fb,
            fb.len() > 0,
            fb[0] < 0x80,
            fb.last() < 0x80,
            valid_utf8(hb),
            is_char_boundary(hb, pos as int),
            encode_utf8(out@) + replace_spec(hb.subrange(pos as int, hb.len() as int), fb, tb)
                == replace_spec(hb, fb, tb),
        decreases hb.len() - pos,
    {
        let rest = &h[pos..h.len()];
        match find_bytes(rest, f) {
            None => {
                proof {
                    is_char_boundary_start_end_of_seq(hb);
                }
                let tail = piece(s, pos, h.len());
                let ghost before = out@;
                out.append(tail);
                proof {
                    lemma_encode_concat(before, tail@);
                    assert(encode_utf8(tail@) == tail.spec_bytes());
                    assert(hb.subrange(pos as int, hb.len() as int) =~= rest@);
                }
                return out;
            },
            Some(i) => {
                proof {
                    lemma_found(rest@, fb, i as int);
                    assert(hb[pos + i] == fb[0]);
                    assert(hb[pos + i + fb.len() - 1] == fb.last());
                    lemma_ascii_boundaries(hb, pos + i);
                    lemma_ascii_boundaries(hb, pos + i + fb.len() - 1);
                }
                let mid = piece(s, pos, pos + i);
                let ghost before = out@;
                out.append(mid);
                out.append(to);
                proof {
                    lemma_encode_concat(before, mid@);
                    lemma_encode_concat(before + mid@, to@);
                    let rs = hb.subrange(pos as int, hb.len() as int);
                    assert(rs =~= rest@);
                    assert(rs.subrange(0, i as int) =~= mid.spec_bytes());
                    assert(rs.subrange(i + fb.len(), rs.len() as int) =~= hb.subrange(
                        pos + i + fb.len(),
                        hb.len() as int,
                    ));
                    assert(encode_utf8(out@) =~= encode_utf8(before) + rs.subrange(0, i as int)
                        + tb);
                }
                pos = pos + i + f.len();
            },
        }
    }
}

/// Appends `s` to `out`; the bytes of `out` grow by the bytes of `s`.
pub fn append_str(out: &mut String, s: &str)
    ensures
        final(out)@ == old(out)@ + s@,
        encode_utf8(final(out)@) == encode_utf8(old(out)@) + s.spec_bytes(),
{
    let ghost before = out@;
    out.append(s);
    proof {
        lemma_encode_concat(before, s@);
    }
}

/// The whitespace-separated words of `s`, where `cur` is the word already
/// begun before `s`.
pub open spec fn word_list(s: Seq<char>, cur: Seq<char>) -> Seq<Seq<char>>
    decreases s.len(),
{
    if s.len() == 0 {
        if cur.len() > 0 {
            seq![cur]
        } else {
            Seq::empty()
        }
    } else if is_white_space(s[0]) {
        (if cur.len() > 0 {
            seq![cur]
        } else {
            Seq::empty()
        }) + word_list(s.drop_first(), Seq::empty())
    } else {
        word_list(s.drop_first(), cur.push(s[0]))
    }
}

/// The whitespace-separated words of `s` (what `str::split_whitespace` gives).
pub open spec fn words(s: Seq<char>) -> Seq<Seq<char>> {
    word_list(s, Seq::empty())
}

/// `s` without any trailing `c` (what `str::trim_end_matches(c)` gives).
pub open spec fn strip_trailing(s: Seq<char>, c: char) -> Seq<char>
    decreases s.len(),
{
    if s.len() > 0 && s.last() == c {
        strip_trailing(s.drop_last(), c)
    } else {
        s
    }
}

/// The whitespace-separated words of `s`.
pub fn split_whitespace(s: &str) -> (r: Vec<String>)
    ensures
        r@.map_values(|w: String| w@) == words(s@),
{
    let n = s.unicode_len();
    let mut out: Vec<String> = Vec::new();
    let mut start: usize = 0;
    let mut in_word = false;
    let mut i: usize = 0;
    proof {
        assert(s@.skip(0) =~= s@);
        assert(s@.subrange(0, 0) =~= Seq::<char>::empty());
        assert(out@.map_values(|w: String| w@) =~= Seq::<Seq<char>>::empty());
        assert(out@.map_values(|w: String| w@) + word_list(s@, Seq::empty()) =~= words(s@));
    }
    while i < n
        invariant
            i <= n,
            n == s@.len(),
            start <= i,
            !in_word ==> start == i,
            in_word ==> start < i,
            out@.map_values(|w: String| w@) + word_list(
                s@.skip(i as int),
                s@.subrange(start as int, i as int),
            ) == words(s@),
        decreases n - i,
    {
        let c = s.get_char(i);
        let ghost rest = s@.skip(i as int);
        let ghost cur = s@.subrange(start as int, i as int);
        proof {
            assert(rest[0] == c);
            assert(rest.drop_first() =~= s@.skip(i + 1));
        }
        if is_whitespace(c) {
            if in_word {
                let ghost before = out@;
                out.push(s.substring_char(start, i).to_owned());
                proof {
                    assert(out@.map_values(|w: String| w@) =~= before.map_values(|w: String| w@)
                        + seq![cur]);
                }
            } else {
                proof {
                    assert(cur =~= Seq::<char>::empty());
                }
            }
            in_word = false;
            start = i + 1;
            proof {
                assert(s@.subrange(start as int, i + 1) =~= Seq::<char>::empty());
            }
        } else {
            if !in_word {
                start = i;
                in_word = true;
            }
            proof {
                assert(s@.subrange(start as int, i + 1) =~= s@.subrange(start as int, i as int).push(c));
            }
        }
        i = i + 1;
    }
    if in_word {
        let ghost before = out@;
        out.push(s.substring_char(start, n).to_owned());
        proof {
            assert(out@.map_values(|w: String| w@) =~= before.map_values(|w: String| w@) + seq![
                s@.subrange(start as int, n as int),
            ]);
        }
    }
    proof {
        assert(s@.skip(n as int) =~= Seq::<char>::empty());
        if !in_word {
            assert(s@.subrange(start as int, n as int) =~= Seq::<char>::empty());
            assert(out@.map_values(|w: String| w@) + Seq::<Seq<char>>::empty() =~= out@.map_values(
                |w: String| w@,
            ));
        }
    }
    out
}

/// `s` without any trailing `c`.
pub fn strip_trailing_char(s: &str, c: char) -> (r: String)
    ensures
        r@ == strip_trailing(s@, c),
{
    let n = s.unicode_len();
    let mut j: usize = n;
    proof {
        assert(s@.subrange(0, n as int) =~= s@);
    }
    while j > 0 && s.get_char(j - 1) == c
        invariant
            j <= n,
            n == s@.len(),
            strip_trailing(s@, c) == strip_trailing(s@.subrange(0, j as int), c),
        decreases j,
    {
        proof {
            assert(s@.subrange(0, j as int).drop_last() =~= s@.subrange(0, j - 1));
        }
        j = j - 1;
    }
    s.substring_char(0, j).to_owned()
}

proof fn lemma_trim_start_head(s: Seq<char>)
    ensures
        trim_start_chars(s).len() == 0 || !is_white_space(trim_start_chars(s)[0]),
    decreases s.len(),
{
    if s.len() > 0 && is_white_space(s[0]) {
        lemma_trim_start_head(s.drop_first());
    }
}

proof fn lemma_trim_end_shape(s: Seq<char>)
    ensures
        trim_end_chars(s).len() <= s.len(),
        forall|i: int| 0 <= i < trim_end_chars(s).len() ==> trim_end_chars(s)[i] == s[i],
        trim_end_chars(s).len() == 0 || !is_white_space(trim_end_chars(s).last()),
    decreases s.len(),
{
    if s.len() > 0 && is_white_space(s.last()) {
        let d = s.drop_last();
        lemma_trim_end_shape(d);
        assert forall|i: int| 0 <= i < trim_end_chars(s).len() implies trim_end_chars(s)[i]
            == s[i] by {
            assert(trim_end_chars(s) == trim_end_chars(d));
            assert(d[i] == s[i]);
        }
    }
}

/// Trimming a trimmed text changes nothing.
pub proof fn law_trim_idempotent(s: Seq<char>)
    ensures
        trim_chars(trim_chars(s)) == trim_chars(s),
{
    let a = trim_start_chars(s);
    let t = trim_end_chars(a);
    lemma_trim_start_head(s);
    lemma_trim_end_shape(a);
    if t.len() > 0 {
        assert(t[0] == a[0]);
        assert(trim_start_chars(t) == t);
    } else {
        assert(trim_start_chars(t) == t);
    }
}

/// An occurrence at some offset means the needle is held.
pub proof fn lemma_holds_at(h: Seq<u8>, n: Seq<u8>, i: int)
    requires
        matches_at(h, n, i),
    ensures
        holds(h, n),
{
    lemma_first_match_from(h, n, 0);
}

} // verus!

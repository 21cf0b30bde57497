//! The PLY point-cloud file format: header grammar and binary row layout.

use vstd::prelude::*;
use vstd::std_specs::iter::IteratorSpec;
use std::str::Chars;
use vstd::utf8::{valid_utf8, decode_utf8, encode_utf8, encode_utf8_decode_utf8};
use vstd::slice::slice_subrange;
use vstd::string::StringSliceAdditionalSpecFns;

verus! {

broadcast use vstd::string::group_string_axioms;

/// The characters of `s`, in order.
pub fn chars_of(s: &str) -> (r: Vec<char>)
    ensures
        r@ == s@,
{
    let mut v: Vec<char> = Vec::new();
    for c in it: s.chars()
        invariant
            v@ == it.seq().take(it.index() as int),
            it.seq() == s@,
    {
        v.push(c);
    }
    v
}

/// Position of the first line feed in `s`, or its length.
pub open spec fn line_end(s: Seq<char>) -> nat
    decreases s.len(),
{
    if s.len() == 0 {
        0
    } else if s[0] == '\n' {
        0
    } else {
        1 + line_end(s.drop_first())
    }
}

/// What follows the first line of `s` (after its line feed, if any).
pub open spec fn after_line(s: Seq<char>) -> Seq<char> {
    if line_end(s) < s.len() {
        s.subrange(line_end(s) as int + 1, s.len() as int)
    } else {
        Seq::empty()
    }
}

pub proof fn lemma_line_end_bound(s: Seq<char>)
    ensures
        line_end(s) <= s.len(),
        forall|i: int| 0 <= i < line_end(s) ==> s[i] != '\n',
        line_end(s) < s.len() ==> s[line_end(s) as int] == '\n',
    decreases s.len(),
{
    if s.len() > 0 && s[0] != '\n' {
        lemma_line_end_bound(s.drop_first());
        assert forall|i: int| 0 <= i < line_end(s) implies s[i] != '\n' by {
            if i > 0 {
                assert(s[i] == s.drop_first()[i - 1]);
            }
        }
    }
}

/// The first line of `head` + (a line feed +) `rest` is `head` when `head`
/// holds no line feed.
pub proof fn lemma_line_end_of(head: Seq<char>, rest: Seq<char>, feed: bool)
    requires
        forall|i: int| 0 <= i < head.len() ==> head[i] != '\n',
        !feed ==> rest.len() == 0,
    ensures
        ({
            let s = if feed { head + seq!['\n'] + rest } else { head };
            &&& line_end(s) == head.len()
            &&& after_line(s) == rest
        }),
    decreases head.len(),
{
    let s = if feed { head + seq!['\n'] + rest } else { head };
    if head.len() > 0 {
        lemma_line_end_of(head.drop_first(), rest, feed);
        let t = if feed { head.drop_first() + seq!['\n'] + rest } else { head.drop_first() };
        assert(s.drop_first() =~= t);
        assert(s[0] == head[0]);
    } else if feed {
        assert(s[0] == '\n');
    }
    if feed {
        assert(s.subrange(head.len() as int + 1, s.len() as int) =~= rest);
    }
}

/// Reads the next line from `it`, with whether a line feed ended it:
/// `None` when nothing is left.
pub fn next_line(it: &mut Chars) -> (r: Option<(Vec<char>, bool)>)
    requires
        (*old(it)).decrease() is Some,
    ensures
        (*final(it)).decrease() is Some,
        (*old(it)).remaining().len() == 0 ==> r is None && (*final(it)).remaining() == (*old(it)).remaining(),
        (*old(it)).remaining().len() > 0 ==> (r matches Some((l, fed)) && l@ == (*old(it)).remaining().subrange(
            0,
            line_end((*old(it)).remaining()) as int,
        ) && (*final(it)).remaining() == after_line((*old(it)).remaining()) && fed == (line_end(
            (*old(it)).remaining(),
        ) < (*old(it)).remaining().len()) && (fed ==> (*final(it)).decrease()->0 < (*old(it)).decrease()->0)),
{
    let ghost start = (*it).remaining();
    proof {
        lemma_line_end_bound(start);
    }
    let mut line: Vec<char> = Vec::new();
    let mut any = false;
    let ghost d0 = (*it).decrease()->0;
    let ghost mut took = false;
    loop
        invariant
            start == (*old(it)).remaining(),
            start == line@ + (*it).remaining(),
            forall|i: int| 0 <= i < line@.len() ==> line@[i] != '\n',
            any == (line@.len() > 0),
            (*it).decrease() is Some,
            d0 == (*old(it)).decrease()->0,
            !took ==> (*it).decrease()->0 == d0,
            took ==> (*it).decrease()->0 < d0,
        decreases (*it).decrease()->0,
    {
        let ghost before = (*it).remaining();
        let ghost before_dec = (*it).decrease()->0;
        match it.next() {
            None => {
                assert(start =~= line@);
                proof {
                    lemma_line_end_of(line@, Seq::empty(), false);
                }
                return if any { Some((line, false)) } else { None };
            },
            Some(c) => {
                proof {
                    assert(before.len() > 0);
                    assert(decreases_to!(before_dec => (*it).decrease()->0));
                    took = true;
                }
                if c == '\n' {
                    proof {
                        let rest = (*it).remaining();
                        assert(start =~= line@ + seq!['\n'] + rest);
                        lemma_line_end_of(line@, rest, true);
                    }
                    return Some((line, true));
                }
                line.push(c);
                any = true;
            },
        }
    }
}

// ---------------------------------------------------------------------------
// Characters, trimming and tokens
// ---------------------------------------------------------------------------

/// Unicode `White_Space`, the characters that trimming and splitting on
/// whitespace remove.
pub open spec fn is_ws(c: char) -> bool {
    let u = c as u32;
    (9 <= u && u <= 13) || u == 32 || u == 0x85 || u == 0xA0 || u == 0x1680 || (0x2000 <= u && u <= 0x200A)
        || u == 0x2028 || u == 0x2029 || u == 0x202F || u == 0x205F || u == 0x3000
}

/// Whether `c` is whitespace.
pub fn is_ws_char(c: char) -> (r: bool)
    ensures
        r == is_ws(c),
{
    let u = c as u32;
    (9 <= u && u <= 13) || u == 32 || u == 0x85 || u == 0xA0 || u == 0x1680 || (0x2000 <= u && u <= 0x200A)
        || u == 0x2028 || u == 0x2029 || u == 0x202F || u == 0x205F || u == 0x3000
}

/// First position at or after `i` that is not whitespace (or the end).
pub open spec fn skip_ws(s: Seq<char>, i: int) -> int
    decreases s.len() - i,
{
    if 0 <= i < s.len() && is_ws(s[i]) {
        skip_ws(s, i + 1)
    } else {
        i
    }
}

/// First position at or after `i` that is whitespace (or the end).
pub open spec fn skip_word(s: Seq<char>, i: int) -> int
    decreases s.len() - i,
{
    if 0 <= i < s.len() && !is_ws(s[i]) {
        skip_word(s, i + 1)
    } else {
        i
    }
}

/// Position just past the last non-whitespace character before `j`.
pub open spec fn back_ws(s: Seq<char>, j: int) -> int
    decreases j,
{
    if 0 < j <= s.len() && is_ws(s[j - 1]) {
        back_ws(s, j - 1)
    } else {
        j
    }
}

pub proof fn lemma_skip_ws(s: Seq<char>, i: int)
    requires
        0 <= i <= s.len(),
    ensures
        i <= skip_ws(s, i) <= s.len(),
        skip_ws(s, i) < s.len() ==> !is_ws(s[skip_ws(s, i)]),
        forall|k: int| i <= k < skip_ws(s, i) ==> is_ws(s[k]),
    decreases s.len() - i,
{
    if i < s.len() && is_ws(s[i]) {
        lemma_skip_ws(s, i + 1);
    }
}

pub proof fn lemma_skip_word(s: Seq<char>, i: int)
    requires
        0 <= i <= s.len(),
    ensures
        i <= skip_word(s, i) <= s.len(),
        skip_word(s, i) < s.len() ==> is_ws(s[skip_word(s, i)]),
        forall|k: int| i <= k < skip_word(s, i) ==> !is_ws(s[k]),
    decreases s.len() - i,
{
    if i < s.len() && !is_ws(s[i]) {
        lemma_skip_word(s, i + 1);
    }
}

pub proof fn lemma_back_ws(s: Seq<char>, j: int, lo: int)
    requires
        0 <= lo < j <= s.len(),
        !is_ws(s[lo]),
    ensures
        lo < back_ws(s, j) <= j,
        !is_ws(s[back_ws(s, j) - 1]),
        forall|k: int| back_ws(s, j) <= k < j ==> is_ws(s[k]),
    decreases j,
{
    if is_ws(s[j - 1]) {
        lemma_back_ws(s, j - 1, lo);
    }
}

/// `s` without leading and trailing whitespace.
pub open spec fn spec_trim(s: Seq<char>) -> Seq<char> {
    let a = skip_ws(s, 0);
    if a >= s.len() {
        Seq::empty()
    } else {
        s.subrange(a, back_ws(s, s.len() as int))
    }
}

/// The maximal runs of non-whitespace characters of `s` from position `i`
/// on, in order.
pub open spec fn tokens_from(s: Seq<char>, i: int) -> Seq<Seq<char>>
    decreases s.len() - i,
{
    if i < 0 || i >= s.len() {
        Seq::empty()
    } else {
        let a = skip_ws(s, i);
        if a >= s.len() {
            Seq::empty()
        } else {
            proof {
                lemma_skip_ws(s, i);
                lemma_skip_word(s, a);
            }
            let b = skip_word(s, a);
            seq![s.subrange(a, b)] + tokens_from(s, b)
        }
    }
}

/// The whitespace-separated tokens of `s`.
pub open spec fn spec_tokens(s: Seq<char>) -> Seq<Seq<char>> {
    tokens_from(s, 0)
}

fn skip_ws_exec(v: &Vec<char>, i: usize) -> (r: usize)
    requires
        i <= v@.len(),
    ensures
        r == skip_ws(v@, i as int),
{
    let mut j = i;
    while j < v.len() && is_ws_char(v[j])
        invariant
            i <= j <= v@.len(),
            skip_ws(v@, j as int) == skip_ws(v@, i as int),
        decreases v@.len() - j,
    {
        j += 1;
    }
    j
}

fn skip_word_exec(v: &Vec<char>, i: usize) -> (r: usize)
    requires
        i <= v@.len(),
    ensures
        r == skip_word(v@, i as int),
{
    let mut j = i;
    while j < v.len() && !is_ws_char(v[j])
        invariant
            i <= j <= v@.len(),
            skip_word(v@, j as int) == skip_word(v@, i as int),
        decreases v@.len() - j,
    {
        j += 1;
    }
    j
}

fn copy_range(v: &Vec<char>, a: usize, b: usize) -> (r: Vec<char>)
    requires
        a <= b <= v@.len(),
    ensures
        r@ == v@.subrange(a as int, b as int),
{
    let mut out: Vec<char> = Vec::new();
    let mut k = a;
    while k < b
        invariant
            a <= k <= b,
            b <= v@.len(),
            out@ == v@.subrange(a as int, k as int),
        decreases b - k,
    {
        out.push(v[k]);
        k += 1;
    }
    out
}

/// `v` without leading and trailing whitespace.
pub fn trim_chars(v: &Vec<char>) -> (r: Vec<char>)
    ensures
        r@ == spec_trim(v@),
{
    let a = skip_ws_exec(v, 0);
    proof {
        lemma_skip_ws(v@, 0);
    }
    if a >= v.len() {
        return Vec::new();
    }
    let mut b = v.len();
    while b > 0 && is_ws_char(v[b - 1])
        invariant
            b <= v@.len(),
            a < v@.len(),
            !is_ws(v@[a as int]),
            a < b,
            back_ws(v@, b as int) == back_ws(v@, v@.len() as int),
        decreases b,
    {
        b -= 1;
    }
    copy_range(v, a, b)
}

/// The whitespace-separated tokens of `v`.
pub fn tokenize(v: &Vec<char>) -> (r: Vec<Vec<char>>)
    ensures
        r@.len() == spec_tokens(v@).len(),
        forall|k: int| 0 <= k < r@.len() ==> #[trigger] r@[k]@ == spec_tokens(v@)[k],
{
    let mut out: Vec<Vec<char>> = Vec::new();
    let ghost mut acc: Seq<Seq<char>> = Seq::empty();
    let mut i: usize = 0;
    while i < v.len()
        invariant
            i <= v@.len(),
            out@.len() == acc.len(),
            forall|k: int| 0 <= k < out@.len() ==> #[trigger] out@[k]@ == acc[k],
            spec_tokens(v@) == acc + tokens_from(v@, i as int),
        decreases v@.len() - i,
    {
        let a = skip_ws_exec(v, i);
        proof {
            lemma_skip_ws(v@, i as int);
        }
        if a >= v.len() {
            assert(tokens_from(v@, i as int) =~= Seq::<Seq<char>>::empty());
            i = v.len();
        } else {
            let b = skip_word_exec(v, a);
            proof {
                lemma_skip_word(v@, a as int);
            }
            let w = copy_range(v, a, b);
            proof {
                assert(tokens_from(v@, i as int) == seq![v@.subrange(a as int, b as int)] + tokens_from(v@, b as int));
                acc = acc.push(w@);
                assert(spec_tokens(v@) =~= acc + tokens_from(v@, b as int));
            }
            out.push(w);
            i = b;
        }
    }
    assert(tokens_from(v@, i as int) =~= Seq::<Seq<char>>::empty());
    assert(acc + Seq::<Seq<char>>::empty() =~= acc);
    out
}

// ---------------------------------------------------------------------------
// Unsigned decimal numbers
// ---------------------------------------------------------------------------

pub open spec fn is_digit(c: char) -> bool {
    48 <= (c as u32) && (c as u32) <= 57
}

/// The value of a string of decimal digits.
pub open spec fn digits_value(d: Seq<char>) -> nat
    decreases d.len(),
{
    if d.len() == 0 {
        0
    } else {
        digits_value(d.drop_last()) * 10 + ((d.last() as u32) - 48) as nat
    }
}

pub open spec fn all_digits(d: Seq<char>) -> bool {
    forall|k: int| 0 <= k < d.len() ==> is_digit(#[trigger] d[k])
}

/// What parsing `t` as a `usize` gives: an optional `+` sign, then one or
/// more decimal digits, with a value that fits.
pub open spec fn spec_parse_usize(t: Seq<char>) -> Option<usize> {
    let d = if t.len() > 0 && t[0] == '+' { t.drop_first() } else { t };
    if d.len() == 0 || !all_digits(d) {
        None
    } else if digits_value(d) <= usize::MAX {
        Some(digits_value(d) as usize)
    } else {
        None
    }
}

pub proof fn lemma_digits_value_prefix(d: Seq<char>, n: int)
    requires
        0 <= n <= d.len(),
        forall|k: int| 0 <= k < d.len() ==> is_digit(#[trigger] d[k]),
    ensures
        digits_value(d.subrange(0, n)) <= digits_value(d),
    decreases d.len() - n,
{
    if n < d.len() {
        lemma_digits_value_prefix(d, n + 1);
        assert(d.subrange(0, n + 1).drop_last() =~= d.subrange(0, n));
    } else {
        assert(d.subrange(0, n) =~= d);
    }
}

/// Parse `t` as a `usize` (see `spec_parse_usize`).
pub fn parse_usize_chars(t: &Vec<char>) -> (r: Option<usize>)
    ensures
        r == spec_parse_usize(t@),
{
    let start: usize = if t.len() > 0 && t[0] == '+' { 1 } else { 0 };
    let ghost d = if t@.len() > 0 && t@[0] == '+' { t@.drop_first() } else { t@ };
    assert(d =~= t@.subrange(start as int, t@.len() as int));
    if start >= t.len() {
        return None;
    }
    let mut k = start;
    while k < t.len()
        invariant
            start <= k <= t@.len(),
            d == t@.subrange(start as int, t@.len() as int),
            d == (if t@.len() > 0 && t@[0] == '+' { t@.drop_first() } else { t@ }),
            forall|j: int| 0 <= j < k - start ==> is_digit(#[trigger] d[j]),
        decreases t@.len() - k,
    {
        let cu = t[k] as u32;
        if !(48 <= cu && cu <= 57) {
            assert(d[k - start] == t@[k as int]);
            assert(!is_digit(d[k - start]));
            let ghost j0 = k - start;
            assert(0 <= j0 < d.len() && !is_digit(d[j0]));
            assert(!all_digits(d));
            return None;
        }
        k += 1;
    }
    let mut val: usize = 0;
    let mut k = start;
    while k < t.len()
        invariant
            start <= k <= t@.len(),
            d == t@.subrange(start as int, t@.len() as int),
            d == (if t@.len() > 0 && t@[0] == '+' { t@.drop_first() } else { t@ }),
            forall|j: int| 0 <= j < d.len() ==> is_digit(#[trigger] d[j]),
            val == digits_value(d.subrange(0, k - start)),
        decreases t@.len() - k,
    {
        let c = t[k];
        assert(d[k - start] == c);
        assert(is_digit(d[k - start]));
        let dig = (c as u32 - 48) as usize;
        assert(d.subrange(0, k - start + 1).drop_last() =~= d.subrange(0, k - start));
        assert(digits_value(d.subrange(0, k - start + 1)) == val * 10 + dig);
        if val > (usize::MAX - dig) / 10 {
            proof {
                assert(val * 10 + dig > usize::MAX) by (nonlinear_arith)
                    requires
                        val > (usize::MAX - dig) / 10,
                        dig <= 9,
                ;
                lemma_digits_value_prefix(d, k - start + 1);
            }
            return None;
        }
        assert(val * 10 + dig <= usize::MAX) by (nonlinear_arith)
            requires
                val <= (usize::MAX - dig) / 10,
                dig <= 9,
        ;
        val = val * 10 + dig;
        k += 1;
    }
    assert(d.subrange(0, d.len() as int) =~= d);
    Some(val)
}


// ---------------------------------------------------------------------------
// Header lines
// ---------------------------------------------------------------------------

/// Why a PLY header could not be read.
#[derive(Debug, Clone, Copy, PartialEq, Eq)]
pub enum PlyError {
    /// The first line is not `ply`.
    NotPly,
    /// The text ended before an `end_header` line.
    UnexpectedEndOfHeader,
    /// An `element vertex` line whose count is not a `usize`.
    BadVertexCount,
    /// No `end_header` in binary data.
    NoEndHeader,
    /// The bytes before `end_header` are not UTF-8.
    HeaderNotUtf8,
}

/// Names what `str::to_lowercase` gives for a text.
pub uninterp spec fn spec_to_lowercase(s: Seq<char>) -> Seq<char>;

/// `c` with `A`–`Z` mapped to `a`–`z`.
pub open spec fn ascii_lower(c: char) -> char {
    if 65 <= c as u32 <= 90 {
        ((c as u32) + 32) as char
    } else {
        c
    }
}

/// Every character is ASCII.
pub open spec fn all_ascii(s: Seq<char>) -> bool {
    forall|i: int| 0 <= i < s.len() ==> (#[trigger] s[i] as u32) < 128
}

/// The lowercased property name: `A`–`Z` mapped to `a`–`z` for ASCII
/// text, what `str::to_lowercase` gives otherwise.
pub open spec fn lowercase_name(w: Seq<char>) -> Seq<char> {
    if all_ascii(w) {
        w.map_values(|c: char| ascii_lower(c))
    } else {
        spec_to_lowercase(w)
    }
}

/// Calls `str::to_lowercase` on the text made of `chars`; the result is
/// claimed to be that call's result, named `spec_to_lowercase` of the
/// characters, and, for ASCII text, to map `A`–`Z` to `a`–`z` one for one
/// and keep every other character. What the mapping does to non-ASCII
/// characters is not stated.
#[verifier::external_body]
fn lowercase_chars(chars: &Vec<char>) -> (r: String)
    ensures
        r@ == spec_to_lowercase(chars@),
        all_ascii(chars@) ==> r@ == chars@.map_values(|c: char| ascii_lower(c)),
{
    let s: String = chars.iter().collect();
    s.to_lowercase()
}

/// A `property` line of a header: its type word and its name, lowercased.
#[derive(Debug, Clone)]
pub struct PlyHeaderProperty {
    pub kind_word: Vec<char>,
    pub name: String,
}

/// The (type word, lowercased name) pairs of header properties.
pub open spec fn props_view(v: Seq<PlyHeaderProperty>) -> Seq<(Seq<char>, Seq<char>)> {
    v.map_values(|p: PlyHeaderProperty| (p.kind_word@, p.name@))
}

pub open spec fn starts_with(s: Seq<char>, p: Seq<char>) -> bool {
    p.len() <= s.len() && s.subrange(0, p.len() as int) == p
}

/// The effect of one trimmed header line `t` on the vertex count and the
/// property list: `element vertex N` sets the count (`None` when N is not
/// a `usize`), `property TYPE NAME` appends a property; lines with fewer
/// than three words and all other lines change nothing.
pub open spec fn header_step(vc: usize, props: Seq<(Seq<char>, Seq<char>)>, t: Seq<char>) -> Option<
    (usize, Seq<(Seq<char>, Seq<char>)>),
> {
    if starts_with(t, "element vertex"@) {
        let p = spec_tokens(t);
        if p.len() >= 3 {
            match spec_parse_usize(p[2]) {
                Some(v) => Some((v, props)),
                None => None,
            }
        } else {
            Some((vc, props))
        }
    } else if starts_with(t, "property"@) {
        let p = spec_tokens(t);
        if p.len() >= 3 {
            Some((vc, props.push((p[1], lowercase_name(p[2])))))
        } else {
            Some((vc, props))
        }
    } else {
        Some((vc, props))
    }
}

/// Only an `element vertex` line sets the vertex count: any other header
/// line (another `element`, a `property`, a comment, ...) leaves the count
/// as it was, and a line that is not a `property` line leaves the property
/// list as it was too.
pub proof fn lemma_only_element_vertex_sets_count(vc: usize, props: Seq<(Seq<char>, Seq<char>)>, t: Seq<char>)
    requires
        !(t.len() >= 14 && t.subrange(0, 14) == "element vertex"@),
    ensures
        header_step(vc, props, t) matches Some((v, ps)) && v == vc && (ps == props || ps.len() == props.len() + 1
            && ps.subrange(0, props.len() as int) == props),
        !(t.len() >= 8 && t.subrange(0, 8) == "property"@) ==> header_step(vc, props, t) == Some((vc, props)),
{
    reveal_strlit("element vertex");
    reveal_strlit("property");
    if starts_with(t, "property"@) {
        let p = spec_tokens(t);
        if p.len() >= 3 {
            let ps = props.push((p[1], lowercase_name(p[2])));
            assert(ps.subrange(0, props.len() as int) =~= props);
        }
    }
}

/// A `property TYPE NAME ...` line appends (TYPE, NAME lowercased) to the
/// properties and keeps the vertex count; with fewer than three words it
/// changes nothing.
pub proof fn lemma_property_line_appends(vc: usize, props: Seq<(Seq<char>, Seq<char>)>, t: Seq<char>)
    requires
        t.len() >= 8 && t.subrange(0, 8) == "property"@,
    ensures
        spec_tokens(t).len() >= 3 ==> header_step(vc, props, t) == Some(
            (vc, props.push((spec_tokens(t)[1], lowercase_name(spec_tokens(t)[2])))),
        ),
        spec_tokens(t).len() < 3 ==> header_step(vc, props, t) == Some((vc, props)),
{
    reveal_strlit("element vertex");
    reveal_strlit("property");
    assert(!starts_with(t, "element vertex"@)) by {
        if starts_with(t, "element vertex"@) {
            assert(t[0] == "element vertex"@[0]);
            assert(t[0] == "property"@[0]);
        }
    }
}

/// An `element vertex N` line whose count is a `usize` sets the vertex
/// count to it and keeps the properties; one whose count is not is
/// refused.
pub proof fn lemma_element_vertex_sets_count(vc: usize, props: Seq<(Seq<char>, Seq<char>)>, t: Seq<char>)
    requires
        t.len() >= 14 && t.subrange(0, 14) == "element vertex"@,
        spec_tokens(t).len() >= 3,
    ensures
        header_step(vc, props, t) == match spec_parse_usize(spec_tokens(t)[2]) {
            Some(v) => Some((v, props)),
            None => None::<(usize, Seq<(Seq<char>, Seq<char>)>)>,
        },
{
    reveal_strlit("element vertex");
}

fn same_chars(a: &Vec<char>, b: &Vec<char>) -> (r: bool)
    ensures
        r == (a@ == b@),
{
    if a.len() != b.len() {
        return false;
    }
    let mut k: usize = 0;
    while k < a.len()
        invariant
            a@.len() == b@.len(),
            k <= a@.len(),
            forall|j: int| 0 <= j < k ==> a@[j] == b@[j],
        decreases a@.len() - k,
    {
        if a[k] != b[k] {
            return false;
        }
        k += 1;
    }
    assert(a@ =~= b@);
    true
}

fn has_prefix(a: &Vec<char>, p: &Vec<char>) -> (r: bool)
    ensures
        r == starts_with(a@, p@),
{
    if p.len() > a.len() {
        return false;
    }
    let mut k: usize = 0;
    while k < p.len()
        invariant
            p@.len() <= a@.len(),
            k <= p@.len(),
            forall|j: int| 0 <= j < k ==> a@[j] == p@[j],
        decreases p@.len() - k,
    {
        if a[k] != p[k] {
            assert(a@.subrange(0, p@.len() as int)[k as int] != p@[k as int]);
            return false;
        }
        k += 1;
    }
    assert(a@.subrange(0, p@.len() as int) =~= p@);
    true
}

/// Applies one trimmed header line to the vertex count and property list;
/// `None` for an `element vertex` line with a bad count.
fn header_step_exec(vc: usize, props: &mut Vec<PlyHeaderProperty>, t: &Vec<char>) -> (r: Option<usize>)
    ensures
        match header_step(vc, props_view(old(props)@), t@) {
            None => r is None,
            Some((v, p)) => r == Some(v) && props_view(final(props)@) == p,
        },
        (r is None || starts_with(t@, "element vertex"@)) ==> final(props)@ == old(props)@,
        final(props)@.len() <= old(props)@.len() + 1,
        final(props)@.len() == old(props)@.len() + 1 ==> starts_with(t@, "property"@),
{
    let elem = chars_of("element vertex");
    let prop = chars_of("property");
    if has_prefix(t, &elem) {
        let p = tokenize(t);
        if p.len() >= 3 {
            parse_usize_chars(&p[2])
        } else {
            Some(vc)
        }
    } else if has_prefix(t, &prop) {
        let p = tokenize(t);
        if p.len() >= 3 {
            let name = lowercase_chars(&p[2]);
            let kind_word = copy_range(&p[1], 0, p[1].len());
            assert(kind_word@ =~= p@[1]@);
            let ghost before = props@;
            props.push(PlyHeaderProperty { kind_word, name });
            assert(props_view(props@) =~= props_view(before).push((p@[1]@, lowercase_name(p@[2]@))));
        }
        Some(vc)
    } else {
        Some(vc)
    }
}

/// Reads header lines from `s` up to the `end_header` line: the vertex
/// count, the properties, and what follows the `end_header` line.
pub open spec fn ascii_header_from(s: Seq<char>, vc: usize, props: Seq<(Seq<char>, Seq<char>)>) -> Result<
    (usize, Seq<(Seq<char>, Seq<char>)>, Seq<char>),
    PlyError,
>
    decreases s.len(),
{
    if s.len() == 0 {
        Err(PlyError::UnexpectedEndOfHeader)
    } else {
        proof {
            lemma_after_line_shorter(s);
        }
        let t = spec_trim(s.subrange(0, line_end(s) as int));
        if t == "end_header"@ {
            Ok((vc, props, after_line(s)))
        } else {
            match header_step(vc, props, t) {
                None => Err(PlyError::BadVertexCount),
                Some((v, p)) => ascii_header_from(after_line(s), v, p),
            }
        }
    }
}

/// What reading the header of an ASCII PLY text gives: the first line must
/// be `ply`; then header lines up to `end_header`.
pub open spec fn spec_ply_ascii_header(s: Seq<char>) -> Result<
    (usize, Seq<(Seq<char>, Seq<char>)>, Seq<char>),
    PlyError,
> {
    let first = if s.len() > 0 { spec_trim(s.subrange(0, line_end(s) as int)) } else { Seq::empty() };
    if first != "ply"@ {
        Err(PlyError::NotPly)
    } else {
        ascii_header_from(after_line(s), 0, Seq::empty())
    }
}

pub proof fn lemma_after_line_shorter(s: Seq<char>)
    requires
        s.len() > 0,
    ensures
        after_line(s).len() < s.len(),
        after_line(s).len() + line_end(s) < s.len() || (after_line(s).len() == 0 && line_end(s) == s.len()),
{
    lemma_line_end_bound(s);
}

/// The names of the header properties include `name`.
pub open spec fn has_prop_name(props: Seq<(Seq<char>, Seq<char>)>, name: Seq<char>) -> bool {
    exists|i: int| 0 <= i < props.len() && #[trigger] props[i].1 == name
}

/// Position of the first property named `name`, if any.
pub open spec fn prop_position(props: Seq<(Seq<char>, Seq<char>)>, name: Seq<char>) -> Option<nat> {
    if has_prop_name(props, name) {
        Some(choose|i: nat| i < props.len() && props[i as int].1 == name && forall|j: int| 0 <= j < i ==> props[j].1 != name)
    } else {
        None
    }
}

/// Calls `Chars::as_str`: claimed to give the text the iterator has not yet
/// produced.
#[verifier::external_body]
fn rest_of<'a>(it: &Chars<'a>) -> (r: &'a str)
    ensures
        r@ == it.remaining(),
{
    it.as_str()
}

/// The header of an ASCII PLY text.
pub struct PlyAsciiHeader<'a> {
    /// The count of the last `element vertex` line (0 without one).
    pub vertex_count: usize,
    /// Properties in header order, names lowercased.
    pub properties: Vec<PlyHeaderProperty>,
    /// Some property is named `nx`, `ny` or `nz`.
    pub has_normals: bool,
    /// Some property is named `red`, `green` or `blue`.
    pub has_colors: bool,
    /// The text after the `end_header` line.
    pub body: &'a str,
}

fn has_name(props: &Vec<PlyHeaderProperty>, name: &str) -> (r: bool)
    ensures
        r == has_prop_name(props_view(props@), name@),
{
    let target = String::from_str(name);
    let mut i: usize = 0;
    while i < props.len()
        invariant
            i <= props@.len(),
            target@ == name@,
            forall|j: int| 0 <= j < i ==> props_view(props@)[j].1 != name@,
        decreases props@.len() - i,
    {
        if props[i].name == target {
            assert(props_view(props@)[i as int].1 == name@);
            return true;
        }
        i += 1;
    }
    false
}

/// Position of the first property named `name` (the column of a value in
/// an ASCII row).
pub fn ply_prop_position(props: &Vec<PlyHeaderProperty>, name: &str) -> (r: Option<usize>)
    ensures
        match r {
            None => !has_prop_name(props_view(props@), name@),
            Some(i) => i < props@.len() && props_view(props@)[i as int].1 == name@ && forall|j: int|
                0 <= j < i ==> props_view(props@)[j].1 != name@,
        },
{
    let target = String::from_str(name);
    let mut i: usize = 0;
    while i < props.len()
        invariant
            i <= props@.len(),
            target@ == name@,
            forall|j: int| 0 <= j < i ==> props_view(props@)[j].1 != name@,
        decreases props@.len() - i,
    {
        if props[i].name == target {
            return Some(i);
        }
        i += 1;
    }
    None
}

/// Reads the header of an ASCII PLY text.
pub fn parse_ply_ascii_header<'a>(data: &'a str) -> (r: Result<PlyAsciiHeader<'a>, PlyError>)
    ensures
        match spec_ply_ascii_header(data@) {
            Err(e) => r == Err::<PlyAsciiHeader<'a>, PlyError>(e),
            Ok((vc, props, rest)) => r matches Ok(h) && h.vertex_count == vc && props_view(h.properties@) == props
                && h.body@ == rest && h.has_normals == (has_prop_name(props, "nx"@) || has_prop_name(props, "ny"@)
                || has_prop_name(props, "nz"@)) && h.has_colors == (has_prop_name(props, "red"@) || has_prop_name(
                props,
                "green"@,
            ) || has_prop_name(props, "blue"@)),
        },
{
    let mut it = data.chars();
    let ghost all = data@;
    assert(it.remaining() == all);
    let ghost first_spec = if all.len() > 0 { spec_trim(all.subrange(0, line_end(all) as int)) } else {
        Seq::<char>::empty()
    };
    let first = match next_line(&mut it) {
        Some((l, _)) => trim_chars(&l),
        None => Vec::new(),
    };
    assert(first@ == first_spec);
    let ply = chars_of("ply");
    if !same_chars(&first, &ply) {
        return Err(PlyError::NotPly);
    }
    assert(all.len() > 0) by {
        reveal_strlit("ply");
        if all.len() == 0 {
            assert(first@.len() == 0);
        }
    }
    assert(it.remaining() == after_line(all));
    let end_header = chars_of("end_header");
    let mut vc: usize = 0;
    let mut props: Vec<PlyHeaderProperty> = Vec::new();
    assert(props_view(props@) =~= Seq::<(Seq<char>, Seq<char>)>::empty());
    loop
        invariant
            it.decrease() is Some,
            end_header@ == "end_header"@,
            all == data@,
            spec_ply_ascii_header(all) == ascii_header_from(it.remaining(), vc, props_view(props@)),
        decreases it.decrease()->0,
    {
        let ghost rem = it.remaining();
        match next_line(&mut it) {
            None => {
                return Err(PlyError::UnexpectedEndOfHeader);
            },
            Some((l, fed)) => {
                let t = trim_chars(&l);
                if same_chars(&t, &end_header) {
                    let body = rest_of(&it);
                    let has_normals = has_name(&props, "nx") || has_name(&props, "ny") || has_name(&props, "nz");
                    let has_colors = has_name(&props, "red") || has_name(&props, "green") || has_name(
                        &props,
                        "blue",
                    );
                    return Ok(PlyAsciiHeader { vertex_count: vc, properties: props, has_normals, has_colors, body });
                }
                match header_step_exec(vc, &mut props, &t) {
                    None => {
                        return Err(PlyError::BadVertexCount);
                    },
                    Some(v) => {
                        vc = v;
                    },
                }
                if !fed {
                    assert(it.remaining().len() == 0);
                    return Err(PlyError::UnexpectedEndOfHeader);
                }
            },
        }
    }
}

// ---------------------------------------------------------------------------
// Binary little-endian layout
// ---------------------------------------------------------------------------

/// Storage type of a binary PLY property.
#[derive(Debug, Clone, Copy, PartialEq, Eq)]
pub enum PlyPropType {
    Float32,
    Float64,
    Uint8,
    Int32,
    Int16,
}

pub open spec fn spec_byte_size(t: PlyPropType) -> nat {
    match t {
        PlyPropType::Float32 => 4,
        PlyPropType::Float64 => 8,
        PlyPropType::Uint8 => 1,
        PlyPropType::Int32 => 4,
        PlyPropType::Int16 => 2,
    }
}

impl PlyPropType {
    /// Number of bytes a value of this type takes.
    pub fn byte_size(self) -> (r: usize)
        ensures
            r == spec_byte_size(self),
    {
        match self {
            PlyPropType::Float32 => 4,
            PlyPropType::Float64 => 8,
            PlyPropType::Uint8 => 1,
            PlyPropType::Int32 => 4,
            PlyPropType::Int16 => 2,
        }
    }
}

/// The storage type a header type word names (`float` for unknown words).
pub open spec fn spec_prop_type(w: Seq<char>) -> PlyPropType {
    if w == "float"@ || w == "float32"@ {
        PlyPropType::Float32
    } else if w == "double"@ || w == "float64"@ {
        PlyPropType::Float64
    } else if w == "uchar"@ || w == "uint8"@ {
        PlyPropType::Uint8
    } else if w == "int"@ || w == "int32"@ {
        PlyPropType::Int32
    } else if w == "short"@ || w == "int16"@ {
        PlyPropType::Int16
    } else {
        PlyPropType::Float32
    }
}

/// The PLY type words name their storage types: for every header
/// property, the type word maps as the PLY format fixes it —
/// `short`/`int16` to the 2-byte `Int16`, `int`/`int32` to the 4-byte
/// `Int32`, `float`/`float32` to the 4-byte `Float32`, `double`/`float64`
/// to the 8-byte `Float64`, `uchar`/`uint8` to the 1-byte `Uint8` — and
/// any other word is read as a 4-byte `Float32`.
pub proof fn lemma_ply_type_words(props: Seq<(Seq<char>, Seq<char>)>)
    ensures
        forall|i: int|
            0 <= i < props.len() ==> {
                let w = #[trigger] props[i].0;
                let t = spec_typed(props)[i].1;
                &&& (w == "short"@ || w == "int16"@) ==> t == PlyPropType::Int16 && spec_byte_size(t) == 2
                &&& (w == "int"@ || w == "int32"@) ==> t == PlyPropType::Int32 && spec_byte_size(t) == 4
                &&& (w == "float"@ || w == "float32"@) ==> t == PlyPropType::Float32 && spec_byte_size(t) == 4
                &&& (w == "double"@ || w == "float64"@) ==> t == PlyPropType::Float64 && spec_byte_size(t) == 8
                &&& (w == "uchar"@ || w == "uint8"@) ==> t == PlyPropType::Uint8 && spec_byte_size(t) == 1
                &&& !(w == "short"@ || w == "int16"@ || w == "int"@ || w == "int32"@ || w == "float"@ || w
                    == "float32"@ || w == "double"@ || w == "float64"@ || w == "uchar"@ || w == "uint8"@) ==> t
                    == PlyPropType::Float32 && spec_byte_size(t) == 4
            },
{
    reveal_strlit("short");
    reveal_strlit("int16");
    reveal_strlit("int");
    reveal_strlit("int32");
    reveal_strlit("float");
    reveal_strlit("float32");
    reveal_strlit("double");
    reveal_strlit("float64");
    reveal_strlit("uchar");
    reveal_strlit("uint8");
    assert forall|i: int| 0 <= i < props.len() implies {
        let w = #[trigger] props[i].0;
        let t = spec_typed(props)[i].1;
        &&& (w == "short"@ || w == "int16"@) ==> t == PlyPropType::Int16 && spec_byte_size(t) == 2
        &&& (w == "int"@ || w == "int32"@) ==> t == PlyPropType::Int32 && spec_byte_size(t) == 4
        &&& (w == "float"@ || w == "float32"@) ==> t == PlyPropType::Float32 && spec_byte_size(t) == 4
        &&& (w == "double"@ || w == "float64"@) ==> t == PlyPropType::Float64 && spec_byte_size(t) == 8
        &&& (w == "uchar"@ || w == "uint8"@) ==> t == PlyPropType::Uint8 && spec_byte_size(t) == 1
        &&& !(w == "short"@ || w == "int16"@ || w == "int"@ || w == "int32"@ || w == "float"@ || w == "float32"@
            || w == "double"@ || w == "float64"@ || w == "uchar"@ || w == "uint8"@) ==> t == PlyPropType::Float32
            && spec_byte_size(t) == 4
    } by {
        let w = props[i].0;
        assert(spec_typed(props)[i].1 == spec_prop_type(w));
        let f = "float"@;
        let f32w = "float32"@;
        let d = "double"@;
        let f64w = "float64"@;
        let uc = "uchar"@;
        let u8w = "uint8"@;
        let iw = "int"@;
        let i32w = "int32"@;
        let sh = "short"@;
        let i16w = "int16"@;
        if w == sh || w == i16w {
            assert(w[0] != f[0] && w[0] != f32w[0] && w[0] != d[0] && w[0] != f64w[0] && w[0] != uc[0] && w[0]
                != u8w[0]);
            assert(w != f && w != f32w && w != d && w != f64w && w != uc && w != u8w);
            if w == sh {
                assert(w[0] != iw[0] && w[0] != i32w[0]);
            } else {
                assert(w.len() != iw.len() && w[3] != i32w[3]);
            }
            assert(w != iw && w != i32w);
        } else if w == iw || w == i32w {
            assert(w[0] != f[0] && w[0] != f32w[0] && w[0] != d[0] && w[0] != f64w[0] && w[0] != uc[0] && w[0]
                != u8w[0]);
            assert(w != f && w != f32w && w != d && w != f64w && w != uc && w != u8w);
        } else if w == uc || w == u8w {
            assert(w[0] != f[0] && w[0] != f32w[0] && w[0] != d[0] && w[0] != f64w[0]);
            assert(w != f && w != f32w && w != d && w != f64w);
        } else if w == d {
            assert(w[0] != f[0] && w[0] != f32w[0]);
            assert(w != f && w != f32w);
        } else if w == f64w {
            assert(w.len() != f.len() && w[5] != f32w[5]);
            assert(w != f && w != f32w);
        }
    }
}

fn is_word(w: &Vec<char>, lit: &str) -> (r: bool)
    ensures
        r == (w@ == lit@),
{
    let l = chars_of(lit);
    same_chars(w, &l)
}

/// The storage type a header type word names.
pub fn prop_type_of(w: &Vec<char>) -> (r: PlyPropType)
    ensures
        r == spec_prop_type(w@),
{
    if is_word(w, "float") || is_word(w, "float32") {
        PlyPropType::Float32
    } else if is_word(w, "double") || is_word(w, "float64") {
        PlyPropType::Float64
    } else if is_word(w, "uchar") || is_word(w, "uint8") {
        PlyPropType::Uint8
    } else if is_word(w, "int") || is_word(w, "int32") {
        PlyPropType::Int32
    } else if is_word(w, "short") || is_word(w, "int16") {
        PlyPropType::Int16
    } else {
        PlyPropType::Float32
    }
}

/// The bytes of the word `end_header`.
pub open spec fn end_header_bytes() -> Seq<u8> {
    seq![101u8, 110, 100, 95, 104, 101, 97, 100, 101, 114]
}

/// First position at or after `i` where `end_header` starts.
pub open spec fn find_from(d: Seq<u8>, i: int) -> Option<nat>
    decreases d.len() - i,
{
    if i < 0 || i + 10 > d.len() {
        None
    } else if d.subrange(i, i + 10) == end_header_bytes() {
        Some(i as nat)
    } else {
        find_from(d, i + 1)
    }
}

pub proof fn lemma_find_from_bound(d: Seq<u8>, k: int)
    ensures
        find_from(d, k) matches Some(i) ==> k <= i && i + 10 <= d.len(),
    decreases d.len() - k,
{
    if 0 <= k && k + 10 <= d.len() && d.subrange(k, k + 10) != end_header_bytes() {
        lemma_find_from_bound(d, k + 1);
    }
}

/// First position where `end_header` starts in `data`.
pub fn find_header_end(data: &[u8]) -> (r: Option<usize>)
    ensures
        match r {
            None => find_from(data@, 0) is None,
            Some(i) => find_from(data@, 0) == Some(i as nat) && i + 10 <= data@.len(),
        },
{
    let needle: [u8; 10] = [101u8, 110, 100, 95, 104, 101, 97, 100, 101, 114];
    assert(needle@ =~= end_header_bytes());
    if data.len() < 10 {
        return None;
    }
    let last = data.len() - 10;
    assert(last + 10 <= usize::MAX);
    let mut i: usize = 0;
    while i <= last
        invariant
            last + 10 == data@.len(),
            last + 10 <= usize::MAX,
            i <= last + 1,
            needle@ == end_header_bytes(),
            find_from(data@, 0) == find_from(data@, i as int),
        decreases last + 1 - i,
    {
        let mut k: usize = 0;
        let mut same = true;
        while k < 10
            invariant
                i <= last,
                last + 10 <= usize::MAX,
                last + 10 == data@.len(),
                k <= 10,
                same == (forall|j: int| 0 <= j < k ==> data@[i + j] == needle@[j]),
            decreases 10 - k,
        {
            if data[i + k] != needle[k] {
                same = false;
            }
            k += 1;
        }
        if same {
            assert(data@.subrange(i as int, i + 10) =~= end_header_bytes());
            return Some(i);
        }
        assert(data@.subrange(i as int, i + 10) != end_header_bytes()) by {
            let j = choose|j: int| 0 <= j < 10 && data@[i + j] != needle@[j];
            assert(data@.subrange(i as int, i + 10)[j] != end_header_bytes()[j]);
        }
        i += 1;
    }
    None
}

/// Calls `std::str::from_utf8`: claimed to succeed exactly on valid UTF-8,
/// with a text whose bytes are the given ones.
#[verifier::external_body]
fn str_from_utf8(v: &[u8]) -> (r: Option<&str>)
    ensures
        r is Some <==> valid_utf8(v@),
        r matches Some(s) ==> s.spec_bytes() == v@,
{
    std::str::from_utf8(v).ok()
}

/// Reads every line of a binary header text.
pub open spec fn binary_header_from(s: Seq<char>, vc: usize, props: Seq<(Seq<char>, Seq<char>)>) -> Option<
    (usize, Seq<(Seq<char>, Seq<char>)>),
>
    decreases s.len(),
{
    if s.len() == 0 {
        Some((vc, props))
    } else {
        proof {
            lemma_after_line_shorter(s);
        }
        match header_step(vc, props, spec_trim(s.subrange(0, line_end(s) as int))) {
            None => None,
            Some((v, p)) => binary_header_from(after_line(s), v, p),
        }
    }
}

/// Header properties as (name, storage type).
pub open spec fn spec_typed(props: Seq<(Seq<char>, Seq<char>)>) -> Seq<(Seq<char>, PlyPropType)> {
    props.map_values(|p: (Seq<char>, Seq<char>)| (p.1, spec_prop_type(p.0)))
}

/// Bytes per vertex row: the sum of the properties' sizes.
pub open spec fn spec_stride(ps: Seq<(Seq<char>, PlyPropType)>) -> nat
    decreases ps.len(),
{
    if ps.len() == 0 {
        0
    } else {
        spec_stride(ps.drop_last()) + spec_byte_size(ps.last().1)
    }
}

/// First line feed at or after `i`.
pub open spec fn newline_from(d: Seq<u8>, i: int) -> Option<nat>
    decreases d.len() - i,
{
    if i < 0 || i >= d.len() {
        None
    } else if d[i] == 10 {
        Some(i as nat)
    } else {
        newline_from(d, i + 1)
    }
}

/// Where vertex rows start: after the line feed that follows `end_header`
/// (or right after the word when no line feed follows).
pub open spec fn spec_body_start(d: Seq<u8>, he: nat) -> nat {
    match newline_from(d, he + 10int) {
        Some(j) => j + 1,
        None => he + 10,
    }
}

/// Number of complete rows: the vertex count, or fewer when the data ends
/// early.
pub open spec fn spec_row_count(vc: nat, len: nat, body_start: nat, stride: nat) -> nat {
    if stride == 0 {
        vc
    } else {
        let fit = ((len - body_start) / stride as int) as nat;
        if vc < fit { vc } else { fit }
    }
}

/// A property of a binary header: lowercased name and storage type.
#[derive(Debug, Clone)]
pub struct PlyProperty {
    pub name: String,
    pub prop_type: PlyPropType,
}

pub open spec fn typed_view(v: Seq<PlyProperty>) -> Seq<(Seq<char>, PlyPropType)> {
    v.map_values(|p: PlyProperty| (p.name@, p.prop_type))
}

/// Where the vertex rows of a binary little-endian PLY file lie.
#[derive(Debug, Clone)]
pub struct PlyBinaryLayout {
    /// The count of the last `element vertex` line (0 without one).
    pub vertex_count: usize,
    /// All properties of the header, in order.
    pub properties: Vec<PlyProperty>,
    /// Offset of the first row.
    pub body_start: usize,
    /// Bytes per row.
    pub stride: usize,
    /// Number of complete rows in the data (at most `vertex_count`).
    pub row_count: usize,
    /// Some property is named `nx`.
    pub has_normals: bool,
    /// Some property is named `red`.
    pub has_colors: bool,
}

/// What reading a binary header's lines gives.
pub open spec fn spec_binary_header(d: Seq<u8>, he: nat) -> Option<(usize, Seq<(Seq<char>, Seq<char>)>)> {
    binary_header_from(decode_utf8(d.subrange(0, he as int)), 0, Seq::empty())
}

/// A UTF-8 encoding is at least as long as the text.
pub proof fn lemma_encode_len(c: Seq<char>)
    ensures
        c.len() <= encode_utf8(c).len(),
    decreases c.len(),
{
    if c.len() > 0 {
        lemma_encode_len(c.drop_first());
    }
}

/// A trimmed text is no longer than the text.
pub proof fn lemma_trim_len(s: Seq<char>)
    ensures
        spec_trim(s).len() <= s.len(),
{
    lemma_skip_ws(s, 0);
    if skip_ws(s, 0) < s.len() {
        lemma_back_ws(s, s.len() as int, skip_ws(s, 0));
    }
}

fn header_props_typed(props: &Vec<PlyHeaderProperty>) -> (r: (Vec<PlyProperty>, usize))
    requires
        8 * props@.len() <= usize::MAX,
    ensures
        typed_view(r.0@) == spec_typed(props_view(props@)),
        r.1 == spec_stride(spec_typed(props_view(props@))),
{
    let mut out: Vec<PlyProperty> = Vec::new();
    let mut stride: usize = 0;
    let mut i: usize = 0;
    while i < props.len()
        invariant
            i <= props@.len(),
            8 * props@.len() <= usize::MAX,
            typed_view(out@) == spec_typed(props_view(props@.subrange(0, i as int))),
            stride == spec_stride(spec_typed(props_view(props@.subrange(0, i as int)))),
            stride <= 8 * i,
        decreases props@.len() - i,
    {
        let t = prop_type_of(&props[i].kind_word);
        let name = props[i].name.clone();
        let ghost before = out@;
        out.push(PlyProperty { name, prop_type: t });
        stride = stride + t.byte_size();
        proof {
            let pre = props@.subrange(0, i as int);
            let post = props@.subrange(0, i as int + 1);
            assert(post =~= pre.push(props@[i as int]));
            assert(spec_typed(props_view(post)) =~= spec_typed(props_view(pre)).push(
                (props@[i as int].name@, spec_prop_type(props@[i as int].kind_word@)),
            ));
            assert(spec_typed(props_view(post)).drop_last() =~= spec_typed(props_view(pre)));
            assert(typed_view(out@) =~= typed_view(before).push((name@, t)));
        }
        i += 1;
    }
    assert(props@.subrange(0, props@.len() as int) =~= props@);
    (out, stride)
}

/// Reads the header of a binary little-endian PLY file and locates its
/// vertex rows.
pub fn parse_ply_binary_layout(data: &[u8]) -> (r: Result<PlyBinaryLayout, PlyError>)
    ensures
        match find_from(data@, 0) {
            None => r == Err::<PlyBinaryLayout, PlyError>(PlyError::NoEndHeader),
            Some(he) => if !valid_utf8(data@.subrange(0, he as int)) {
                r == Err::<PlyBinaryLayout, PlyError>(PlyError::HeaderNotUtf8)
            } else {
                match spec_binary_header(data@, he) {
                    None => r == Err::<PlyBinaryLayout, PlyError>(PlyError::BadVertexCount),
                    Some((vc, props)) => r matches Ok(l) && l.vertex_count == vc && typed_view(l.properties@)
                        == spec_typed(props) && l.stride == spec_stride(spec_typed(props)) && l.body_start
                        == spec_body_start(data@, he) && l.row_count == spec_row_count(
                        vc as nat,
                        data@.len(),
                        l.body_start as nat,
                        l.stride as nat,
                    ) && l.has_normals == has_prop_name(props, "nx"@) && l.has_colors == has_prop_name(
                        props,
                        "red"@,
                    ),
                }
            },
        },
{
    let he = match find_header_end(data) {
        None => {
            return Err(PlyError::NoEndHeader);
        },
        Some(h) => h,
    };
    proof {
        lemma_find_from_bound(data@, 0);
    }
    assert(find_from(data@, 0) == Some(he as nat));
    let dlen = data.len();
    let head = slice_subrange(data, 0, he);
    let text = match str_from_utf8(head) {
        None => {
            return Err(PlyError::HeaderNotUtf8);
        },
        Some(t) => t,
    };
    let ghost hchars = text@;
    proof {
        encode_utf8_decode_utf8(hchars);
        assert(hchars == decode_utf8(data@.subrange(0, he as int)));
        lemma_encode_len(hchars);
    }
    let mut it = text.chars();
    let mut vc: usize = 0;
    let mut props: Vec<PlyHeaderProperty> = Vec::new();
    assert(props_view(props@) =~= Seq::<(Seq<char>, Seq<char>)>::empty());
    loop
        invariant
            hchars.len() <= he,
            it.decrease() is Some,
            it.remaining().len() <= hchars.len(),
            8 * props@.len() <= hchars.len() - it.remaining().len(),
            spec_binary_header(data@, he as nat) == binary_header_from(it.remaining(), vc, props_view(props@)),
            hchars == decode_utf8(data@.subrange(0, he as int)),
            he + 10 <= data@.len(),
            dlen == data@.len(),
            find_from(data@, 0) == Some(he as nat),
            valid_utf8(data@.subrange(0, he as int)),
        ensures
            spec_binary_header(data@, he as nat) == Some((vc, props_view(props@))),
        decreases it.decrease()->0,
    {
        let ghost rem = it.remaining();
        match next_line(&mut it) {
            None => {
                break;
            },
            Some((l, fed)) => {
                let t = trim_chars(&l);
                let ghost n0 = props@.len();
                proof {
                    lemma_after_line_shorter(rem);
                    lemma_trim_len(l@);
                    reveal_strlit("property");
                }
                match header_step_exec(vc, &mut props, &t) {
                    None => {
                        return Err(PlyError::BadVertexCount);
                    },
                    Some(v) => {
                        vc = v;
                    },
                }
                if !fed {
                    assert(it.remaining().len() == 0);
                    break;
                }
            },
        }
    }
    let (properties, stride) = header_props_typed(&props);
    let body0 = he + 10;
    let body_start = match first_newline(data, body0) {
        Some(j) => j + 1,
        None => body0,
    };
    let row_count = if stride == 0 {
        vc
    } else {
        let fit = (data.len() - body_start) / stride;
        if vc < fit { vc } else { fit }
    };
    let has_normals = has_typed_name(&properties, "nx");
    let has_colors = has_typed_name(&properties, "red");
    proof {
        lemma_typed_names(props_view(props@), "nx"@);
        lemma_typed_names(props_view(props@), "red"@);
        assert(spec_binary_header(data@, he as nat) == Some((vc, props_view(props@))));
        assert(typed_view(properties@) == spec_typed(props_view(props@)));
        assert(stride == spec_stride(spec_typed(props_view(props@))));
        assert(body_start == spec_body_start(data@, he as nat));
        assert(row_count == spec_row_count(vc as nat, data@.len(), body_start as nat, stride as nat));
    }
    Ok(PlyBinaryLayout { vertex_count: vc, properties, body_start, stride, row_count, has_normals, has_colors })
}

fn first_newline(data: &[u8], from: usize) -> (r: Option<usize>)
    requires
        from <= data@.len(),
    ensures
        match r {
            None => newline_from(data@, from as int) is None,
            Some(j) => newline_from(data@, from as int) == Some(j as nat) && j < data@.len(),
        },
{
    let mut j = from;
    while j < data.len()
        invariant
            from <= j <= data@.len(),
            newline_from(data@, from as int) == newline_from(data@, j as int),
        decreases data@.len() - j,
    {
        if data[j] == 10 {
            return Some(j);
        }
        j += 1;
    }
    None
}

pub proof fn lemma_typed_names(props: Seq<(Seq<char>, Seq<char>)>, name: Seq<char>)
    ensures
        has_prop_name(props, name) == has_typed_name_spec(spec_typed(props), name),
{
    let t = spec_typed(props);
    if has_prop_name(props, name) {
        let i = choose|i: int| 0 <= i < props.len() && #[trigger] props[i].1 == name;
        assert(t[i].0 == name);
    }
    if has_typed_name_spec(t, name) {
        let i = choose|i: int| 0 <= i < t.len() && #[trigger] t[i].0 == name;
        assert(props[i].1 == name);
    }
}

pub open spec fn has_typed_name_spec(ps: Seq<(Seq<char>, PlyPropType)>, name: Seq<char>) -> bool {
    exists|i: int| 0 <= i < ps.len() && #[trigger] ps[i].0 == name
}

fn has_typed_name(props: &Vec<PlyProperty>, name: &str) -> (r: bool)
    ensures
        r == has_typed_name_spec(typed_view(props@), name@),
{
    let target = String::from_str(name);
    let mut i: usize = 0;
    while i < props.len()
        invariant
            i <= props@.len(),
            target@ == name@,
            forall|j: int| 0 <= j < i ==> typed_view(props@)[j].0 != name@,
        decreases props@.len() - i,
    {
        if props[i].name == target {
            assert(typed_view(props@)[i as int].0 == name@);
            return true;
        }
        i += 1;
    }
    false
}

/// A row's stride only grows as properties are appended.
pub proof fn lemma_stride_prefix(ps: Seq<(Seq<char>, PlyPropType)>, n: int)
    requires
        0 <= n <= ps.len(),
    ensures
        spec_stride(ps.subrange(0, n)) <= spec_stride(ps),
        n < ps.len() ==> spec_stride(ps.subrange(0, n)) + spec_byte_size(ps[n].1) <= spec_stride(ps),
    decreases ps.len() - n,
{
    if n < ps.len() {
        lemma_stride_prefix(ps, n + 1);
        assert(ps.subrange(0, n + 1).drop_last() =~= ps.subrange(0, n));
    } else {
        assert(ps.subrange(0, n) =~= ps);
    }
}

/// Byte offset within a row, and storage type, of the first property named
/// `name`.
pub fn ply_field(props: &Vec<PlyProperty>, name: &str) -> (r: Option<(usize, PlyPropType)>)
    requires
        spec_stride(typed_view(props@)) <= usize::MAX,
    ensures
        match r {
            None => !has_typed_name_spec(typed_view(props@), name@),
            Some((off, t)) => exists|i: int|
                0 <= i < props@.len() && #[trigger] typed_view(props@)[i].0 == name@ && (forall|j: int|
                    0 <= j < i ==> typed_view(props@)[j].0 != name@) && off == spec_stride(
                    typed_view(props@).subrange(0, i),
                ) && t == typed_view(props@)[i].1 && off + spec_byte_size(t) <= spec_stride(typed_view(props@)),
        },
{
    let ghost ps = typed_view(props@);
    let target = String::from_str(name);
    let mut offset: usize = 0;
    let mut i: usize = 0;
    while i < props.len()
        invariant
            i <= props@.len(),
            ps == typed_view(props@),
            spec_stride(ps) <= usize::MAX,
            target@ == name@,
            offset == spec_stride(ps.subrange(0, i as int)),
            forall|j: int| 0 <= j < i ==> ps[j].0 != name@,
        decreases props@.len() - i,
    {
        proof {
            lemma_stride_prefix(ps, i as int);
            assert(ps.subrange(0, i as int + 1).drop_last() =~= ps.subrange(0, i as int));
        }
        if props[i].name == target {
            assert(ps[i as int].0 == name@);
            return Some((offset, props[i].prop_type));
        }
        offset = offset + props[i].prop_type.byte_size();
        i += 1;
    }
    None
}

/// Every complete row lies inside the data: there are at most as many
/// rows as the header announces, the last one ends within the data, and
/// the count is as large as that allows: all announced rows, or one more
/// row would run past the data (rows without bytes are all counted).
pub proof fn lemma_rows_within_data(vc: nat, len: nat, body_start: nat, stride: nat)
    requires
        body_start <= len,
    ensures
        spec_row_count(vc, len, body_start, stride) <= vc,
        stride > 0 ==> body_start + spec_row_count(vc, len, body_start, stride) * stride <= len,
        stride == 0 ==> spec_row_count(vc, len, body_start, stride) == vc,
        stride > 0 ==> spec_row_count(vc, len, body_start, stride) == vc || body_start + (spec_row_count(
            vc,
            len,
            body_start,
            stride,
        ) + 1) * stride > len,
{
    if stride > 0 {
        let fit = ((len - body_start) / stride as int) as nat;
        let rc = spec_row_count(vc, len, body_start, stride);
        assert((fit + 1) * stride > len - body_start) by (nonlinear_arith)
            requires
                fit == (len - body_start) / stride as int,
                stride > 0,
                body_start <= len,
        ;
        assert(fit * stride <= len - body_start) by (nonlinear_arith)
            requires
                fit == (len - body_start) / stride as int,
                stride > 0,
                body_start <= len,
        ;
        assert(rc * stride <= fit * stride) by (nonlinear_arith)
            requires
                rc <= fit,
        ;
    }
}

/// A row's size is the sum of its properties' sizes: no properties take no
/// bytes, and appending a property adds its type's size.
pub proof fn lemma_stride_adds_sizes(ps: Seq<(Seq<char>, PlyPropType)>, p: (Seq<char>, PlyPropType))
    ensures
        spec_stride(Seq::<(Seq<char>, PlyPropType)>::empty()) == 0,
        spec_stride(ps.push(p)) == spec_stride(ps) + spec_byte_size(p.1),
{
    assert(ps.push(p).drop_last() =~= ps);
}

} // verus!

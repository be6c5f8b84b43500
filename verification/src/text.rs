//! Character-level text helpers shared by the XML writers and readers.

use vstd::prelude::*;
use vstd::std_specs::iter::IteratorSpec;

verus! {

/// The characters of `s`, in order.
pub fn chars_of(s: &str) -> (v: Vec<char>)
    ensures
        v@ == s@,
{
    let mut v: Vec<char> = Vec::new();
    let mut it = s.chars();
    broadcast use vstd::string::group_string_axioms;
    loop
        invariant
            it.obeys_prophetic_iter_laws(),
            v@ + it.remaining() == s@,
        decreases s@.len() - v@.len(),
    {
        match it.next() {
            Some(c) => {
                v.push(c);
            },
            None => {
                return v;
            },
        }
    }
}

/// Collects characters into a `String` (std's `FromIterator<&char>` for `String`).
/// Trusted: the resulting string holds exactly the given characters, in order.
#[verifier::external_body]
pub fn string_of(v: &[char]) -> (s: String)
    ensures
        s@ == v@,
{
    v.iter().collect()
}

/// Character-wise equality of two vectors.
pub fn chars_eq(a: &Vec<char>, b: &Vec<char>) -> (r: bool)
    ensures
        r == (a@ == b@),
{
    if a.len() != b.len() {
        return false;
    }
    let mut i: usize = 0;
    while i < a.len()
        invariant
            i <= a@.len(),
            a@.len() == b@.len(),
            forall|j: int| 0 <= j < i ==> a@[j] == b@[j],
        decreases a.len() - i,
    {
        if a[i] != b[i] {
            return false;
        }
        i = i + 1;
    }
    proof {
        assert(a@ =~= b@);
    }
    true
}

/// Text equality of two string slices.
pub fn str_eq(a: &str, b: &str) -> (r: bool)
    ensures
        r == (a@ == b@),
{
    let x = chars_of(a);
    let y = chars_of(b);
    chars_eq(&x, &y)
}

// ---------------------------------------------------------------------------
// XML escaping
// ---------------------------------------------------------------------------

/// The escape of one character used for attribute values: `& < > " '`.
pub open spec fn escape_char(c: char) -> Seq<char> {
    if c == '&' {
        seq!['&', 'a', 'm', 'p', ';']
    } else if c == '<' {
        seq!['&', 'l', 't', ';']
    } else if c == '>' {
        seq!['&', 'g', 't', ';']
    } else if c == '"' {
        seq!['&', 'q', 'u', 'o', 't', ';']
    } else if c == '\'' {
        seq!['&', 'a', 'p', 'o', 's', ';']
    } else {
        seq![c]
    }
}

/// Attribute escaping of a whole text: every character replaced by `escape_char`.
pub open spec fn escape_seq(s: Seq<char>) -> Seq<char>
    decreases s.len(),
{
    if s.len() == 0 {
        Seq::empty()
    } else {
        escape_seq(s.drop_last()) + escape_char(s.last())
    }
}

/// The escape of one character used for element content: only `& < >`.
pub open spec fn escape_content_char(c: char) -> Seq<char> {
    if c == '&' || c == '<' || c == '>' {
        escape_char(c)
    } else {
        seq![c]
    }
}

/// Content escaping of a whole text.
pub open spec fn escape_content_seq(s: Seq<char>) -> Seq<char>
    decreases s.len(),
{
    if s.len() == 0 {
        Seq::empty()
    } else {
        escape_content_seq(s.drop_last()) + escape_content_char(s.last())
    }
}

fn push_escaped_char(out: &mut Vec<char>, c: char, all: bool)
    ensures
        final(out)@ == old(out)@ + (if all { escape_char(c) } else { escape_content_char(c) }),
{
    if c == '&' {
        out.push('&'); out.push('a'); out.push('m'); out.push('p'); out.push(';');
    } else if c == '<' {
        out.push('&'); out.push('l'); out.push('t'); out.push(';');
    } else if c == '>' {
        out.push('&'); out.push('g'); out.push('t'); out.push(';');
    } else if all && c == '"' {
        out.push('&'); out.push('q'); out.push('u'); out.push('o'); out.push('t'); out.push(';');
    } else if all && c == '\'' {
        out.push('&'); out.push('a'); out.push('p'); out.push('o'); out.push('s'); out.push(';');
    } else {
        out.push(c);
    }
    proof {
        if all {
            assert(final(out)@ =~= old(out)@ + escape_char(c));
        } else {
            assert(final(out)@ =~= old(out)@ + escape_content_char(c));
        }
    }
}

fn escape_with(s: &str, all: bool) -> (r: String)
    ensures
        r@ == (if all { escape_seq(s@) } else { escape_content_seq(s@) }),
{
    let cs = chars_of(s);
    let mut out: Vec<char> = Vec::new();
    let mut i: usize = 0;
    while i < cs.len()
        invariant
            i <= cs@.len(),
            cs@ == s@,
            out@ == (if all { escape_seq(cs@.take(i as int)) } else { escape_content_seq(cs@.take(i as int)) }),
        decreases cs.len() - i,
    {
        let ghost prev = cs@.take(i as int);
        push_escaped_char(&mut out, cs[i], all);
        proof {
            let next = cs@.take(i + 1);
            assert(next.drop_last() =~= prev);
            assert(next.last() == cs@[i as int]);
        }
        i = i + 1;
    }
    proof {
        assert(cs@.take(cs@.len() as int) =~= cs@);
    }
    string_of(&out)
}

/// Escapes `& < > " '` as XML entities (the form every attribute writer of the library uses).
pub fn xml_escape(s: &str) -> (r: String)
    ensures
        r@ == escape_seq(s@),
{
    escape_with(s, true)
}

/// Escapes only `& < >` (element content, where quotes need no escape).
pub fn escape_xml_content(s: &str) -> (r: String)
    ensures
        r@ == escape_content_seq(s@),
{
    escape_with(s, false)
}

// ---------------------------------------------------------------------------
// Replacing
// ---------------------------------------------------------------------------

/// Left-to-right, non-overlapping replacement of every occurrence of a non-empty `pat`.
pub open spec fn replace_seq(s: Seq<char>, pat: Seq<char>, rep: Seq<char>) -> Seq<char>
    decreases s.len(),
{
    if pat.len() == 0 || s.len() < pat.len() {
        s
    } else if s.take(pat.len() as int) == pat {
        rep + replace_seq(s.skip(pat.len() as int), pat, rep)
    } else {
        seq![s[0]] + replace_seq(s.skip(1), pat, rep)
    }
}

fn matches_at(s: &Vec<char>, i: usize, pat: &Vec<char>) -> (b: bool)
    requires
        i + pat@.len() <= s@.len(),
    ensures
        b == (s@.subrange(i as int, i + pat@.len()) == pat@),
{
    let mut k: usize = 0;
    while k < pat.len()
        invariant
            k <= pat@.len(),
            i + pat@.len() <= s@.len(),
            i + pat@.len() <= s.len(),
            forall|j: int| 0 <= j < k ==> s@[i + j] == pat@[j],
        decreases pat.len() - k,
    {
        if s[i + k] != pat[k] {
            proof {
                assert(s@.subrange(i as int, i + pat@.len())[k as int] != pat@[k as int]);
            }
            return false;
        }
        k = k + 1;
    }
    proof {
        assert(s@.subrange(i as int, i + pat@.len()) =~= pat@);
    }
    true
}

/// `replace_seq` on character vectors; `pat` must not be empty (as with `str::replace` on the patterns used here).
pub fn replace_chars(s: &Vec<char>, pat: &Vec<char>, rep: &Vec<char>) -> (r: Vec<char>)
    requires
        pat@.len() > 0,
    ensures
        r@ == replace_seq(s@, pat@, rep@),
{
    let mut out: Vec<char> = Vec::new();
    let mut i: usize = 0;
    proof {
        assert(s@.skip(0) =~= s@);
        assert(out@ + replace_seq(s@, pat@, rep@) =~= replace_seq(s@, pat@, rep@));
    }
    while i < s.len()
        invariant
            i <= s@.len(),
            pat@.len() > 0,
            out@ + replace_seq(s@.skip(i as int), pat@, rep@) == replace_seq(s@, pat@, rep@),
        decreases s.len() - i,
    {
        let ghost rest = s@.skip(i as int);
        if s.len() - i >= pat.len() && matches_at(s, i, pat) {
            proof {
                assert(rest.take(pat@.len() as int) =~= s@.subrange(i as int, i + pat@.len()));
                assert(rest.skip(pat@.len() as int) =~= s@.skip(i + pat@.len()));
            }
            let mut k: usize = 0;
            let ghost before = out@;
            while k < rep.len()
                invariant
                    k <= rep@.len(),
                    out@ == before + rep@.take(k as int),
                decreases rep.len() - k,
            {
                out.push(rep[k]);
                proof {
                    assert(rep@.take(k + 1) =~= rep@.take(k as int).push(rep@[k as int]));
                }
                k = k + 1;
            }
            proof {
                assert(rep@.take(rep@.len() as int) =~= rep@);
            }
            i = i + pat.len();
        } else {
            proof {
                if s@.len() - i >= pat@.len() {
                    assert(rest.take(pat@.len() as int) =~= s@.subrange(i as int, i + pat@.len()));
                }
                assert(rest.skip(1) =~= s@.skip(i + 1));
                assert(rest[0] == s@[i as int]);
                assert(out@.push(s@[i as int]) =~= out@ + seq![rest[0]]);
            }
            out.push(s[i]);
            i = i + 1;
        }
    }
    proof {
        assert(s@.skip(s@.len() as int) =~= Seq::<char>::empty());
        assert(out@ + Seq::<char>::empty() =~= out@);
    }
    out
}

// ---------------------------------------------------------------------------
// Decimal numbers
// ---------------------------------------------------------------------------

/// The ASCII digit of `d` (`d < 10`).
pub open spec fn digit_char(d: nat) -> char {
    if d == 0 { '0' } else if d == 1 { '1' } else if d == 2 { '2' } else if d == 3 { '3' }
    else if d == 4 { '4' } else if d == 5 { '5' } else if d == 6 { '6' } else if d == 7 { '7' }
    else if d == 8 { '8' } else { '9' }
}

/// The decimal text of a natural number, without leading zeros (std's `Display` for integers).
pub open spec fn decimal(n: nat) -> Seq<char>
    decreases n,
{
    if n < 10 {
        seq![digit_char(n)]
    } else {
        decimal(n / 10).push(digit_char(n % 10))
    }
}

/// The decimal text of an integer, with a leading `-` when negative.
pub open spec fn signed_decimal(n: int) -> Seq<char> {
    if n < 0 {
        seq!['-'] + decimal((-n) as nat)
    } else {
        decimal(n as nat)
    }
}

fn digit(d: u64) -> (c: char)
    requires
        d < 10,
    ensures
        c == digit_char(d as nat),
{
    if d == 0 { '0' } else if d == 1 { '1' } else if d == 2 { '2' } else if d == 3 { '3' }
    else if d == 4 { '4' } else if d == 5 { '5' } else if d == 6 { '6' } else if d == 7 { '7' }
    else if d == 8 { '8' } else { '9' }
}

fn push_decimal(out: &mut Vec<char>, n: u64)
    ensures
        final(out)@ == old(out)@ + decimal(n as nat),
    decreases n,
{
    if n >= 10 {
        push_decimal(out, n / 10);
    }
    out.push(digit(n % 10));
    proof {
        if n >= 10 {
            assert(final(out)@ =~= old(out)@ + decimal(n as nat));
        } else {
            assert(final(out)@ =~= old(out)@ + decimal(n as nat));
        }
    }
}

/// Decimal text of an unsigned number.
pub fn u64_to_string(n: u64) -> (r: String)
    ensures
        r@ == decimal(n as nat),
{
    let mut out: Vec<char> = Vec::new();
    push_decimal(&mut out, n);
    proof {
        assert(out@ =~= decimal(n as nat));
    }
    string_of(&out)
}

/// Decimal text of a signed number.
pub fn i64_to_string(n: i64) -> (r: String)
    ensures
        r@ == signed_decimal(n as int),
{
    let mut out: Vec<char> = Vec::new();
    if n < 0 {
        out.push('-');
        let m: u64 = (0i128 - (n as i128)) as u64;
        push_decimal(&mut out, m);
    } else {
        push_decimal(&mut out, n as u64);
    }
    proof {
        assert(out@ =~= signed_decimal(n as int));
    }
    string_of(&out)
}

// ---------------------------------------------------------------------------
// Parsing decimal numbers
// ---------------------------------------------------------------------------

/// Whether `c` is an ASCII digit.
pub open spec fn is_digit(c: char) -> bool {
    '0' <= c && c <= '9'
}

/// Whether every character is an ASCII digit.
pub open spec fn all_digits(s: Seq<char>) -> bool {
    forall|i: int| 0 <= i < s.len() ==> is_digit(#[trigger] s[i])
}

/// The value of a digit string.
pub open spec fn digits_value(s: Seq<char>) -> nat
    decreases s.len(),
{
    if s.len() == 0 {
        0
    } else {
        digits_value(s.drop_last()) * 10 + ((s.last() as u32) - ('0' as u32)) as nat
    }
}

/// The digits after an optional leading `+`.
pub open spec fn unsigned_body(s: Seq<char>) -> Seq<char> {
    if s.len() > 0 && s[0] == '+' { s.skip(1) } else { s }
}

/// std's `parse` for an unsigned integer type whose largest value is `max`.
pub open spec fn parse_unsigned(s: Seq<char>, max: nat) -> Option<nat> {
    let b = unsigned_body(s);
    if b.len() > 0 && all_digits(b) && digits_value(b) <= max {
        Some(digits_value(b))
    } else {
        None
    }
}

/// std's `parse::<i64>`: an optional sign, then digits, in range.
pub open spec fn parse_i64_spec(s: Seq<char>) -> Option<int> {
    if s.len() > 0 && s[0] == '-' {
        let b = s.skip(1);
        if b.len() > 0 && all_digits(b) && digits_value(b) <= 0x8000_0000_0000_0000 {
            Some(-(digits_value(b) as int))
        } else {
            None
        }
    } else {
        match parse_unsigned(s, 0x7fff_ffff_ffff_ffff) {
            Some(v) => Some(v as int),
            None => None,
        }
    }
}

/// Parses digits `cs[from..]`: `Some` of their value when all are digits, there is one at
/// least and the value is at most `max`.
fn parse_digits(cs: &Vec<char>, from: usize, max: u64) -> (r: Option<u64>)
    requires
        from <= cs@.len(),
    ensures
        ({
            let b = cs@.skip(from as int);
            match r {
                Some(v) => b.len() > 0 && all_digits(b) && digits_value(b) <= max && v == digits_value(b),
                None => !(b.len() > 0 && all_digits(b) && digits_value(b) <= max),
            }
        }),
{
    let ghost b = cs@.skip(from as int);
    if from == cs.len() {
        return None;
    }
    let mut acc: u64 = 0;
    let mut too_big = false;
    let mut i = from;
    while i < cs.len()
        invariant
            from <= i <= cs@.len(),
            b == cs@.skip(from as int),
            all_digits(b.take(i - from)),
            !too_big ==> acc == digits_value(b.take(i - from)) && acc <= max,
            too_big ==> digits_value(b.take(i - from)) > max,
        decreases cs.len() - i,
    {
        let c = cs[i];
        if !('0' <= c && c <= '9') {
            proof {
                assert(b[i - from] == c);
            }
            return None;
        }
        let d = ((c as u32) - ('0' as u32)) as u64;
        proof {
            let t = b.take(i - from + 1);
            assert(t.drop_last() =~= b.take(i - from));
            assert(t.last() == c);
            assert forall|j: int| 0 <= j < t.len() implies is_digit(#[trigger] t[j]) by {
                if j < t.len() - 1 {
                    assert(t[j] == b.take(i - from)[j]);
                }
            }
        }
        if !too_big {
            match acc.checked_mul(10) {
                Some(m) => match m.checked_add(d) {
                    Some(n) => {
                        if n <= max {
                            acc = n;
                        } else {
                            too_big = true;
                        }
                    },
                    None => { too_big = true; },
                },
                None => { too_big = true; },
            }
        } else {
            proof {
                let t = b.take(i - from + 1);
                assert(digits_value(t) >= digits_value(b.take(i - from)));
            }
        }
        i = i + 1;
    }
    proof {
        assert(b.take(i - from) =~= b);
    }
    if too_big {
        None
    } else {
        Some(acc)
    }
}

/// std's `str::parse::<u32>`.
pub fn parse_u32(s: &str) -> (r: Option<u32>)
    ensures
        match r {
            Some(v) => parse_unsigned(s@, u32::MAX as nat) == Some(v as nat),
            None => parse_unsigned(s@, u32::MAX as nat) is None,
        },
{
    let cs = chars_of(s);
    let from: usize = if cs.len() > 0 && cs[0] == '+' { 1 } else { 0 };
    proof {
        if from == 0 {
            assert(cs@.skip(0) =~= cs@);
        }
    }
    match parse_digits(&cs, from, u32::MAX as u64) {
        Some(v) => Some(v as u32),
        None => None,
    }
}

/// std's `str::parse::<i64>`.
pub fn parse_i64(s: &str) -> (r: Option<i64>)
    ensures
        match r {
            Some(v) => parse_i64_spec(s@) == Some(v as int),
            None => parse_i64_spec(s@) is None,
        },
{
    let cs = chars_of(s);
    if cs.len() > 0 && cs[0] == '-' {
        match parse_digits(&cs, 1, 0x8000_0000_0000_0000u64) {
            Some(v) => Some((0i128 - (v as i128)) as i64),
            None => None,
        }
    } else {
        let from: usize = if cs.len() > 0 && cs[0] == '+' { 1 } else { 0 };
        proof {
            if from == 0 {
                assert(cs@.skip(0) =~= cs@);
            }
        }
        match parse_digits(&cs, from, 0x7fff_ffff_ffff_ffffu64) {
            Some(v) => Some(v as i64),
            None => None,
        }
    }
}

// ---------------------------------------------------------------------------
// Case
// ---------------------------------------------------------------------------

/// The text std's `str::to_lowercase` gives for `s` (Unicode lowercase mapping).
pub uninterp spec fn lowercase(s: Seq<char>) -> Seq<char>;

/// std's `str::to_lowercase`. Trusted: the result is `lowercase(s)`, a function of the text alone.
#[verifier::external_body]
pub fn to_lowercase(s: &str) -> (r: String)
    ensures
        r@ == lowercase(s@),
{
    s.to_lowercase()
}

// ---------------------------------------------------------------------------
// Whitespace
// ---------------------------------------------------------------------------

/// std's `char::is_whitespace`: the Unicode `White_Space` characters.
pub open spec fn is_ws(c: char) -> bool {
    let u = c as u32;
    (0x9 <= u && u <= 0xd) || u == 0x20 || u == 0x85 || u == 0xa0 || u == 0x1680 || (0x2000 <= u && u <= 0x200a)
        || u == 0x2028 || u == 0x2029 || u == 0x202f || u == 0x205f || u == 0x3000
}

/// The text without leading whitespace.
pub open spec fn trim_start(s: Seq<char>) -> Seq<char>
    decreases s.len(),
{
    if s.len() > 0 && is_ws(s[0]) {
        trim_start(s.skip(1))
    } else {
        s
    }
}

/// The text without trailing whitespace.
pub open spec fn trim_end(s: Seq<char>) -> Seq<char>
    decreases s.len(),
{
    if s.len() > 0 && is_ws(s.last()) {
        trim_end(s.drop_last())
    } else {
        s
    }
}

/// std's `str::trim`.
pub open spec fn trim(s: Seq<char>) -> Seq<char> {
    trim_end(trim_start(s))
}

pub fn is_ws_char(c: char) -> (b: bool)
    ensures
        b == is_ws(c),
{
    let u = c as u32;
    (0x9 <= u && u <= 0xd) || u == 0x20 || u == 0x85 || u == 0xa0 || u == 0x1680 || (0x2000 <= u && u <= 0x200a)
        || u == 0x2028 || u == 0x2029 || u == 0x202f || u == 0x205f || u == 0x3000
}

proof fn lemma_trim_start_skip(s: Seq<char>, i: int)
    requires
        0 <= i <= s.len(),
        forall|j: int| 0 <= j < i ==> is_ws(s[j]),
        i == s.len() || !is_ws(s[i]),
    ensures
        trim_start(s) == s.skip(i),
    decreases i,
{
    if i > 0 {
        lemma_trim_start_skip(s.skip(1), i - 1);
        assert(s.skip(1).skip(i - 1) =~= s.skip(i));
    } else {
        assert(s.skip(0) =~= s);
    }
}

proof fn lemma_trim_end_take(s: Seq<char>, k: int)
    requires
        0 <= k <= s.len(),
        forall|j: int| k <= j < s.len() ==> is_ws(s[j]),
        k == 0 || !is_ws(s[k - 1]),
    ensures
        trim_end(s) == s.take(k),
    decreases s.len() - k,
{
    if k < s.len() {
        lemma_trim_end_take(s.drop_last(), k);
        assert(s.drop_last().take(k) =~= s.take(k));
    } else {
        assert(s.take(k) =~= s);
    }
}

/// The characters of `v` without leading and trailing whitespace.
pub fn trim_chars(v: &Vec<char>) -> (r: Vec<char>)
    ensures
        r@ == trim(v@),
{
    let n = v.len();
    let mut i: usize = 0;
    while i < n && is_ws_char(v[i])
        invariant
            i <= n,
            n == v@.len(),
            forall|j: int| 0 <= j < i ==> is_ws(v@[j]),
        decreases n - i,
    {
        i = i + 1;
    }
    proof {
        lemma_trim_start_skip(v@, i as int);
    }
    let ghost t = v@.skip(i as int);
    let mut k: usize = n;
    while k > i && is_ws_char(v[k - 1])
        invariant
            i <= k <= n,
            n == v@.len(),
            forall|j: int| k <= j < n ==> is_ws(v@[j]),
        decreases k,
    {
        k = k - 1;
    }
    proof {
        assert forall|j: int| (k - i) <= j < t.len() implies is_ws(t[j]) by {
            assert(t[j] == v@[i + j]);
        }
        if k > i {
            assert(t[k - i - 1] == v@[k - 1]);
        }
        lemma_trim_end_take(t, k - i);
    }
    let mut out: Vec<char> = Vec::new();
    let mut j: usize = i;
    while j < k
        invariant
            i <= j <= k <= n,
            n == v@.len(),
            out@ == v@.subrange(i as int, j as int),
        decreases k - j,
    {
        out.push(v[j]);
        proof {
            assert(v@.subrange(i as int, j + 1) =~= v@.subrange(i as int, j as int).push(v@[j as int]));
        }
        j = j + 1;
    }
    proof {
        assert(out@ =~= t.take(k - i));
    }
    out
}


/// The trimmed text of `s` (std's `str::trim`).
pub fn trim_str(s: &str) -> (r: String)
    ensures
        r@ == trim(s@),
{
    let cs = chars_of(s);
    let t = trim_chars(&cs);
    string_of(t.as_slice())
}

// ---------------------------------------------------------------------------
// Splitting and joining
// ---------------------------------------------------------------------------

/// The texts of a list of strings.
pub open spec fn texts_of(v: Seq<String>) -> Seq<Seq<char>> {
    v.map_values(|s: String| s@)
}

/// std's `str::split(sep)` for a character: the pieces between the separators, one more than
/// there are separators.
pub open spec fn split_on(s: Seq<char>, sep: char) -> Seq<Seq<char>>
    decreases s.len(),
{
    if s.len() == 0 {
        seq![Seq::empty()]
    } else {
        let p = split_on(s.drop_last(), sep);
        if s.last() == sep {
            p.push(Seq::empty())
        } else {
            p.update(p.len() - 1, p.last().push(s.last()))
        }
    }
}

/// There is always at least one piece.
pub proof fn lemma_split_on_len(s: Seq<char>, sep: char)
    ensures
        split_on(s, sep).len() >= 1,
    decreases s.len(),
{
    if s.len() > 0 {
        lemma_split_on_len(s.drop_last(), sep);
    }
}

/// The pieces of `s` between the characters `sep` (see `split_on`).
pub fn split_text(s: &str, sep: char) -> (r: Vec<String>)
    ensures
        texts_of(r@) == split_on(s@, sep),
{
    let cs = chars_of(s);
    let mut out: Vec<String> = Vec::new();
    let mut cur: Vec<char> = Vec::new();
    let mut i: usize = 0;
    proof {
        assert(cs@.take(0) =~= Seq::<char>::empty());
        assert(texts_of(out@) =~= Seq::<Seq<char>>::empty());
    }
    while i < cs.len()
        invariant
            i <= cs@.len(),
            cs@ == s@,
            split_on(cs@.take(i as int), sep).len() >= 1,
            cur@ == split_on(cs@.take(i as int), sep).last(),
            texts_of(out@) == split_on(cs@.take(i as int), sep).drop_last(),
        decreases cs.len() - i,
    {
        let ghost p = split_on(cs@.take(i as int), sep);
        proof {
            let t = cs@.take(i + 1);
            assert(t.drop_last() =~= cs@.take(i as int));
            assert(t.last() == cs@[i as int]);
            lemma_split_on_len(t, sep);
        }
        if cs[i] == sep {
            let ghost prev = out@;
            out.push(string_of(cur.as_slice()));
            cur = Vec::new();
            proof {
                assert(texts_of(out@) =~= texts_of(prev).push(p.last()));
                assert(p.drop_last().push(p.last()) =~= p);
                assert(p.push(Seq::<char>::empty()).drop_last() =~= p);
            }
        } else {
            cur.push(cs[i]);
            proof {
                let q = p.update(p.len() - 1, p.last().push(cs@[i as int]));
                assert(q.drop_last() =~= p.drop_last());
            }
        }
        i = i + 1;
    }
    proof {
        assert(cs@.take(cs@.len() as int) =~= cs@);
    }
    let ghost p = split_on(cs@, sep);
    let ghost prev = out@;
    out.push(string_of(cur.as_slice()));
    proof {
        assert(texts_of(out@) =~= texts_of(prev).push(p.last()));
        assert(p.drop_last().push(p.last()) =~= p);
    }
    out
}

/// A line without the `\r` of a `\r\n` ending.
pub open spec fn strip_cr(l: Seq<char>) -> Seq<char> {
    if l.len() > 0 && l.last() == '\r' { l.drop_last() } else { l }
}

/// std's `str::lines`: the pieces between `\n`, each ended piece without a final `\r`; a last
/// piece left empty by a final `\n` is no line.
pub open spec fn lines_of(s: Seq<char>) -> Seq<Seq<char>> {
    let p = split_on(s, '\n');
    let ended = p.drop_last().map_values(|l: Seq<char>| strip_cr(l));
    if p.last().len() > 0 { ended.push(p.last()) } else { ended }
}

fn strip_cr_text(l: &String) -> (r: String)
    ensures
        r@ == strip_cr(l@),
{
    let cs = chars_of(l.as_str());
    let n = cs.len();
    if n > 0 && cs[n - 1] == '\r' {
        let mut out: Vec<char> = Vec::new();
        let mut i: usize = 0;
        while i < n - 1
            invariant
                i <= n - 1,
                n == cs@.len(),
                n > 0,
                out@ == cs@.take(i as int),
            decreases n - 1 - i,
        {
            out.push(cs[i]);
            proof {
                assert(cs@.take(i + 1) =~= cs@.take(i as int).push(cs@[i as int]));
            }
            i = i + 1;
        }
        proof {
            assert(out@ =~= cs@.drop_last());
        }
        string_of(out.as_slice())
    } else {
        crate::rule::copy_string(l)
    }
}

/// The lines of `s` (see `lines_of`).
pub fn text_lines(s: &str) -> (r: Vec<String>)
    ensures
        texts_of(r@) == lines_of(s@),
{
    let pieces = split_text(s, '\n');
    let ghost p = split_on(s@, '\n');
    proof {
        lemma_split_on_len(s@, '\n');
        assert(texts_of(pieces@).len() == pieces@.len());
    }
    let n = pieces.len();
    let mut out: Vec<String> = Vec::new();
    let mut i: usize = 0;
    while i + 1 < n
        invariant
            n == pieces@.len(),
            n >= 1,
            i + 1 <= n,
            texts_of(pieces@) == p,
            texts_of(out@) == p.take(i as int).map_values(|l: Seq<char>| strip_cr(l)),
        decreases n - i,
    {
        let ghost prev = out@;
        proof {
            assert(p[i as int] == pieces@[i as int]@);
        }
        out.push(strip_cr_text(&pieces[i]));
        proof {
            assert(texts_of(out@) =~= texts_of(prev).push(strip_cr(p[i as int])));
            assert(p.take(i + 1).map_values(|l: Seq<char>| strip_cr(l))
                =~= p.take(i as int).map_values(|l: Seq<char>| strip_cr(l)).push(strip_cr(p[i as int])));
        }
        i = i + 1;
    }
    proof {
        assert(p.take(i as int) =~= p.drop_last());
        assert(p.last() == pieces@[n - 1]@);
    }
    if pieces[n - 1].as_str().unicode_len() > 0 {
        let ghost prev = out@;
        out.push(crate::rule::copy_string(&pieces[n - 1]));
        proof {
            assert(texts_of(out@) =~= texts_of(prev).push(p.last()));
        }
    }
    out
}

/// std's `join("\n")` on lines.
pub open spec fn join_lines(ls: Seq<Seq<char>>) -> Seq<char>
    decreases ls.len(),
{
    if ls.len() == 0 {
        Seq::empty()
    } else if ls.len() == 1 {
        ls[0]
    } else {
        join_lines(ls.drop_last()) + seq!['\n'] + ls.last()
    }
}

/// The lines `ls[from..]` joined with `\n`.
pub fn join_lines_from(ls: &Vec<String>, from: usize) -> (r: String)
    requires
        from <= ls@.len(),
    ensures
        r@ == join_lines(texts_of(ls@).skip(from as int)),
{
    let ghost t = texts_of(ls@);
    let mut out = String::new();
    let mut i: usize = from;
    proof {
        assert(t.skip(from as int).take(0) =~= Seq::<Seq<char>>::empty());
    }
    while i < ls.len()
        invariant
            from <= i <= ls@.len(),
            t == texts_of(ls@),
            out@ == join_lines(t.skip(from as int).take(i - from)),
        decreases ls.len() - i,
    {
        let ghost prev = t.skip(from as int).take(i - from);
        let ghost next = t.skip(from as int).take(i + 1 - from);
        proof {
            assert(next.drop_last() =~= prev);
            assert(next.last() == ls@[i as int]@);
        }
        if i > from {
            crate::rule::push(&mut out, "\n");
        }
        crate::rule::push(&mut out, ls[i].as_str());
        proof {
            reveal_strlit("\n");
            if i > from {
                assert(out@ =~= join_lines(prev) + seq!['\n'] + next.last());
            } else {
                assert(out@ =~= next[0]);
            }
        }
        i = i + 1;
    }
    proof {
        assert(t.skip(from as int).take(i - from) =~= t.skip(from as int));
    }
    out
}


/// The text without leading copies of `c`.
pub open spec fn trim_start_char(s: Seq<char>, c: char) -> Seq<char>
    decreases s.len(),
{
    if s.len() > 0 && s[0] == c {
        trim_start_char(s.skip(1), c)
    } else {
        s
    }
}

/// The text without trailing copies of `c`.
pub open spec fn trim_end_char(s: Seq<char>, c: char) -> Seq<char>
    decreases s.len(),
{
    if s.len() > 0 && s.last() == c {
        trim_end_char(s.drop_last(), c)
    } else {
        s
    }
}

/// std's `str::trim_matches(c)` for a character.
pub open spec fn trim_char(s: Seq<char>, c: char) -> Seq<char> {
    trim_end_char(trim_start_char(s, c), c)
}

proof fn lemma_trim_start_char_skip(s: Seq<char>, c: char, i: int)
    requires
        0 <= i <= s.len(),
        forall|j: int| 0 <= j < i ==> s[j] == c,
        i == s.len() || s[i] != c,
    ensures
        trim_start_char(s, c) == s.skip(i),
    decreases i,
{
    if i > 0 {
        lemma_trim_start_char_skip(s.skip(1), c, i - 1);
        assert(s.skip(1).skip(i - 1) =~= s.skip(i));
    } else {
        assert(s.skip(0) =~= s);
    }
}

proof fn lemma_trim_end_char_take(s: Seq<char>, c: char, k: int)
    requires
        0 <= k <= s.len(),
        forall|j: int| k <= j < s.len() ==> s[j] == c,
        k == 0 || s[k - 1] != c,
    ensures
        trim_end_char(s, c) == s.take(k),
    decreases s.len() - k,
{
    if k < s.len() {
        lemma_trim_end_char_take(s.drop_last(), c, k);
        assert(s.drop_last().take(k) =~= s.take(k));
    } else {
        assert(s.take(k) =~= s);
    }
}

/// The text of `s` without leading and trailing copies of `c` (see `trim_char`).
pub fn trim_matches_char(s: &str, c: char) -> (r: String)
    ensures
        r@ == trim_char(s@, c),
{
    let v = chars_of(s);
    let n = v.len();
    let mut i: usize = 0;
    while i < n && v[i] == c
        invariant
            i <= n,
            n == v@.len(),
            forall|j: int| 0 <= j < i ==> v@[j] == c,
        decreases n - i,
    {
        i = i + 1;
    }
    proof {
        lemma_trim_start_char_skip(v@, c, i as int);
    }
    let ghost t = v@.skip(i as int);
    let mut k: usize = n;
    while k > i && v[k - 1] == c
        invariant
            i <= k <= n,
            n == v@.len(),
            forall|j: int| k <= j < n ==> v@[j] == c,
        decreases k,
    {
        k = k - 1;
    }
    proof {
        assert forall|j: int| (k - i) <= j < t.len() implies t[j] == c by {
            assert(t[j] == v@[i + j]);
        }
        if k > i {
            assert(t[k - i - 1] == v@[k - 1]);
        }
        lemma_trim_end_char_take(t, c, k - i);
    }
    let mut out: Vec<char> = Vec::new();
    let mut j: usize = i;
    while j < k
        invariant
            i <= j <= k <= n,
            n == v@.len(),
            out@ == v@.subrange(i as int, j as int),
        decreases k - j,
    {
        out.push(v[j]);
        proof {
            assert(v@.subrange(i as int, j + 1) =~= v@.subrange(i as int, j as int).push(v@[j as int]));
        }
        j = j + 1;
    }
    proof {
        assert(out@ =~= t.take(k - i));
    }
    string_of(out.as_slice())
}


// ---------------------------------------------------------------------------
// Searching
// ---------------------------------------------------------------------------

/// Whether `pat` occurs in `s` at position `i`.
pub open spec fn occurs_at(s: Seq<char>, pat: Seq<char>, i: int) -> bool {
    0 <= i && i + pat.len() <= s.len() && s.subrange(i, i + pat.len()) == pat
}

/// std's `str::find`: the first position at which `pat` occurs in `s`.
pub open spec fn find_seq(s: Seq<char>, pat: Seq<char>) -> Option<int> {
    if exists|i: int| occurs_at(s, pat, i) {
        Some(choose|i: int| occurs_at(s, pat, i) && forall|j: int| 0 <= j < i ==> !occurs_at(s, pat, j))
    } else {
        None
    }
}

/// std's `str::contains`.
pub open spec fn contains_seq(s: Seq<char>, pat: Seq<char>) -> bool {
    exists|i: int| occurs_at(s, pat, i)
}

/// The first position at which `pat` occurs in `s` (see `find_seq`).
pub fn find_text(s: &str, pat: &str) -> (r: Option<usize>)
    ensures
        match r {
            Some(i) => occurs_at(s@, pat@, i as int) && forall|j: int| 0 <= j < i ==> !occurs_at(s@, pat@, j),
            None => forall|j: int| !occurs_at(s@, pat@, j),
        },
        r matches Some(i) ==> find_seq(s@, pat@) == Some(i as int),
        r is None ==> find_seq(s@, pat@) is None,
        s@.len() <= usize::MAX,
{
    let sv = chars_of(s);
    let pv = chars_of(pat);
    assert(sv@.len() == sv.len());
    if pv.len() > sv.len() {
        return None;
    }
    let last = sv.len() - pv.len();
    let mut i: usize = 0;
    loop
        invariant
            sv@ == s@,
            s@.len() == sv.len(),
            pv@ == pat@,
            last == sv@.len() - pv@.len(),
            i <= last,
            forall|j: int| 0 <= j < i ==> !occurs_at(s@, pat@, j),
        decreases last - i,
    {
        if matches_at(&sv, i, &pv) {
            proof {
                assert(occurs_at(s@, pat@, i as int));
                let c = choose|k: int| occurs_at(s@, pat@, k) && forall|j: int| 0 <= j < k ==> !occurs_at(s@, pat@, j);
                assert(occurs_at(s@, pat@, c) && forall|j: int| 0 <= j < c ==> !occurs_at(s@, pat@, j));
                if c > i {
                    assert(!occurs_at(s@, pat@, i as int));
                }
            }
            return Some(i);
        }
        if i == last {
            proof {
                assert forall|j: int| !occurs_at(s@, pat@, j) by {
                    if 0 <= j && j > last as int {
                        assert(j + pv@.len() > sv@.len());
                    }
                }
            }
            return None;
        }
        i = i + 1;
    }
}

/// Whether `pat` occurs in `s`.
pub fn contains_text(s: &str, pat: &str) -> (b: bool)
    ensures
        b == contains_seq(s@, pat@),
{
    match find_text(s, pat) {
        Some(_) => true,
        None => false,
    }
}


proof fn lemma_first_occurrence(s: Seq<char>, pat: Seq<char>, i: int)
    requires
        occurs_at(s, pat, i),
    ensures
        exists|m: int| occurs_at(s, pat, m) && forall|j: int| 0 <= j < m ==> !occurs_at(s, pat, j),
    decreases i,
{
    if exists|j: int| 0 <= j < i && occurs_at(s, pat, j) {
        let j = choose|j: int| 0 <= j < i && occurs_at(s, pat, j);
        lemma_first_occurrence(s, pat, j);
    } else {
        assert(occurs_at(s, pat, i) && forall|j: int| 0 <= j < i ==> !occurs_at(s, pat, j));
    }
}

/// Where `find_seq` finds the pattern, it occurs.
pub proof fn lemma_find_seq_occurs(s: Seq<char>, pat: Seq<char>)
    ensures
        find_seq(s, pat) matches Some(p) ==> occurs_at(s, pat, p),
{
    if exists|i: int| occurs_at(s, pat, i) {
        let i = choose|i: int| occurs_at(s, pat, i);
        lemma_first_occurrence(s, pat, i);
    }
}

/// Replacing an entity leaves a text without `&` as it is.
pub proof fn lemma_replace_absent(s: Seq<char>, pat: Seq<char>, rep: Seq<char>)
    requires
        pat.len() > 0,
        pat[0] == '&',
        forall|i: int| 0 <= i < s.len() ==> s[i] != '&',
    ensures
        replace_seq(s, pat, rep) == s,
    decreases s.len(),
{
    if s.len() >= pat.len() {
        assert(s.take(pat.len() as int)[0] != pat[0]);
        lemma_replace_absent(s.skip(1), pat, rep);
        assert(seq![s[0]] + s.skip(1) =~= s);
    }
}

/// A digit's character is a digit and counts for its value.
pub proof fn lemma_digit_char(d: nat)
    requires
        d < 10,
    ensures
        is_digit(digit_char(d)),
        (digit_char(d) as u32) - ('0' as u32) == d,
{
    if d == 0 {} else if d == 1 {} else if d == 2 {} else if d == 3 {} else if d == 4 {}
    else if d == 5 {} else if d == 6 {} else if d == 7 {} else if d == 8 {} else {}
}

/// The decimal text of a number is digits that read back as the number.
pub proof fn lemma_decimal_digits(n: nat)
    ensures
        decimal(n).len() > 0,
        all_digits(decimal(n)),
        digits_value(decimal(n)) == n,
    decreases n,
{
    if n < 10 {
        lemma_digit_char(n);
        let d = decimal(n);
        assert(d.len() == 1 && d[0] == digit_char(n));
        assert(d.drop_last() =~= Seq::<char>::empty());
        assert(d.last() == digit_char(n));
        assert(digits_value(d) == digits_value(d.drop_last()) * 10 + ((d.last() as u32) - ('0' as u32)) as nat);
    } else {
        lemma_digit_char(n % 10);
        lemma_decimal_digits(n / 10);
        let d = decimal(n);
        assert(d.drop_last() == decimal(n / 10));
        assert(all_digits(d)) by {
            assert forall|i: int| 0 <= i < d.len() implies is_digit(#[trigger] d[i]) by {
                if i < d.len() - 1 {
                    assert(d[i] == decimal(n / 10)[i]);
                }
            }
        }
        assert(((d.last() as u32) - ('0' as u32)) == n % 10);
        assert(digits_value(d) == digits_value(d.drop_last()) * 10 + ((d.last() as u32) - ('0' as u32)) as nat);
        assert(n == (n / 10) * 10 + n % 10);
    }
}

// ---------------------------------------------------------------------------
// Unescaping what was escaped
// ---------------------------------------------------------------------------

/// A piece of an escaped text: a character written as it is, or one of the five entities
/// (`&amp; &lt; &gt; &quot; &apos;`, by number).
pub enum EscPiece {
    Plain(char),
    Entity(nat),
}

/// The text of an entity.
pub open spec fn entity_text(k: nat) -> Seq<char> {
    if k == 0 {
        seq!['&', 'a', 'm', 'p', ';']
    } else if k == 1 {
        seq!['&', 'l', 't', ';']
    } else if k == 2 {
        seq!['&', 'g', 't', ';']
    } else if k == 3 {
        seq!['&', 'q', 'u', 'o', 't', ';']
    } else {
        seq!['&', 'a', 'p', 'o', 's', ';']
    }
}

/// The character an entity stands for.
pub open spec fn entity_char(k: nat) -> char {
    if k == 0 { '&' } else if k == 1 { '<' } else if k == 2 { '>' } else if k == 3 { '"' } else { '\'' }
}

/// The text of a piece.
pub open spec fn piece_text(p: EscPiece) -> Seq<char> {
    match p {
        EscPiece::Plain(c) => seq![c],
        EscPiece::Entity(k) => entity_text(k),
    }
}

/// The text of a list of pieces.
pub open spec fn render(ps: Seq<EscPiece>) -> Seq<char>
    decreases ps.len(),
{
    if ps.len() == 0 {
        Seq::empty()
    } else {
        piece_text(ps[0]) + render(ps.skip(1))
    }
}

/// The piece a character is escaped to.
pub open spec fn escape_piece(c: char) -> EscPiece {
    if c == '&' {
        EscPiece::Entity(0)
    } else if c == '<' {
        EscPiece::Entity(1)
    } else if c == '>' {
        EscPiece::Entity(2)
    } else if c == '"' {
        EscPiece::Entity(3)
    } else if c == '\'' {
        EscPiece::Entity(4)
    } else {
        EscPiece::Plain(c)
    }
}

/// The pieces with entity `k` read as its character.
pub open spec fn decode_pieces(ps: Seq<EscPiece>, k: nat) -> Seq<EscPiece> {
    ps.map_values(|p: EscPiece| if p == EscPiece::Entity(k) { EscPiece::Plain(entity_char(k)) } else { p })
}

/// Whether every piece is a character other than `&` or an entity.
pub open spec fn pieces_ok(ps: Seq<EscPiece>) -> bool {
    forall|i: int| 0 <= i < ps.len() ==> match #[trigger] ps[i] {
        EscPiece::Plain(c) => c != '&',
        EscPiece::Entity(k) => k < 5,
    }
}

pub proof fn lemma_render_concat(a: Seq<EscPiece>, b: Seq<EscPiece>)
    ensures
        render(a + b) == render(a) + render(b),
    decreases a.len(),
{
    if a.len() == 0 {
        assert(a + b =~= b);
    } else {
        assert((a + b).skip(1) =~= a.skip(1) + b);
        lemma_render_concat(a.skip(1), b);
        assert(render(a) + render(b) =~= piece_text(a[0]) + (render(a.skip(1)) + render(b)));
    }
}

/// Escaping a text writes the pieces of its characters.
pub proof fn lemma_escape_render(t: Seq<char>)
    ensures
        escape_seq(t) == render(t.map_values(|c: char| escape_piece(c))),
    decreases t.len(),
{
    if t.len() > 0 {
        let d = t.drop_last();
        lemma_escape_render(d);
        let m = t.map_values(|c: char| escape_piece(c));
        assert(m =~= d.map_values(|c: char| escape_piece(c)) + seq![escape_piece(t.last())]);
        lemma_render_concat(d.map_values(|c: char| escape_piece(c)), seq![escape_piece(t.last())]);
        let one = seq![escape_piece(t.last())];
        assert(one.skip(1) =~= Seq::<EscPiece>::empty());
        assert(render(one.skip(1)) == Seq::<char>::empty());
        assert(render(one) == piece_text(one[0]) + render(one.skip(1)));
        assert(render(one) =~= piece_text(escape_piece(t.last())));
        assert(piece_text(escape_piece(t.last())) =~= escape_char(t.last()));
    } else {
        assert(escape_seq(t) =~= render(t.map_values(|c: char| escape_piece(c))));
    }
}

/// Replacing an entity leaves a text part without `&` at the front as it is.
proof fn lemma_replace_plain_front(a: Seq<char>, x: Seq<char>, pat: Seq<char>, rep: Seq<char>)
    requires
        pat.len() > 0,
        pat[0] == '&',
        forall|i: int| 0 <= i < a.len() ==> a[i] != '&',
    ensures
        replace_seq(a + x, pat, rep) == a + replace_seq(x, pat, rep),
    decreases a.len(),
{
    let s = a + x;
    if a.len() == 0 {
        assert(s =~= x);
    } else if s.len() < pat.len() {
        assert(a + x =~= s);
    } else {
        assert(s.take(pat.len() as int)[0] == a[0]);
        assert(s.skip(1) =~= a.skip(1) + x);
        lemma_replace_plain_front(a.skip(1), x, pat, rep);
        assert(seq![s[0]] + (a.skip(1) + replace_seq(x, pat, rep)) =~= a + replace_seq(x, pat, rep));
    }
}

proof fn lemma_entities_differ(j: nat, k: nat)
    requires
        j < 5,
        k < 5,
        j != k,
    ensures
        exists|i: int| 0 <= i < entity_text(j).len() && i < entity_text(k).len() && #[trigger] entity_text(j)[i] != entity_text(k)[i],
{
    if (j == 0 && k == 1) || (j == 1 && k == 0) || (j == 0 && k == 2) || (j == 2 && k == 0) || (j == 0 && k == 3) || (j == 3 && k == 0) {
        assert(entity_text(j)[1] != entity_text(k)[1]);
    } else if (j == 0 && k == 4) || (j == 4 && k == 0) {
        assert(entity_text(j)[2] != entity_text(k)[2]);
    } else {
        assert(entity_text(j)[1] != entity_text(k)[1]);
    }
}

/// Replacing entity `k` by its character reads exactly the pieces that are that entity.
pub proof fn lemma_replace_entity(ps: Seq<EscPiece>, k: nat)
    requires
        k < 5,
        pieces_ok(ps),
    ensures
        replace_seq(render(ps), entity_text(k), seq![entity_char(k)]) == render(decode_pieces(ps, k)),
    decreases ps.len(),
{
    let pat = entity_text(k);
    let rep = seq![entity_char(k)];
    if ps.len() == 0 {
        assert(decode_pieces(ps, k) =~= Seq::<EscPiece>::empty());
    } else {
        let rest = ps.skip(1);
        assert(pieces_ok(rest)) by {
            assert forall|i: int| 0 <= i < rest.len() implies match #[trigger] rest[i] {
                EscPiece::Plain(c) => c != '&',
                EscPiece::Entity(k) => k < 5,
            } by {
                assert(rest[i] == ps[i + 1]);
            }
        }
        lemma_replace_entity(rest, k);
        let dp = decode_pieces(ps, k);
        assert(dp.skip(1) =~= decode_pieces(rest, k));
        let s = render(ps);
        assert(s == piece_text(ps[0]) + render(rest));
        match ps[0] {
            EscPiece::Plain(c) => {
                assert(pieces_ok(ps));
                assert(c != '&');
                lemma_replace_plain_front(seq![c], render(rest), pat, rep);
                assert(dp[0] == ps[0]);
            },
            EscPiece::Entity(j) => {
                assert(j < 5);
                let e = entity_text(j);
                if j == k {
                    assert(s.take(pat.len() as int) =~= pat);
                    assert(s.skip(pat.len() as int) =~= render(rest));
                    assert(dp[0] == EscPiece::Plain(entity_char(k)));
                } else {
                    assert(dp[0] == ps[0]);
                    if s.len() >= pat.len() {
                        lemma_entities_differ(j, k);
                        let i = choose|i: int| 0 <= i < entity_text(j).len() && i < entity_text(k).len() && #[trigger] entity_text(j)[i] != entity_text(k)[i];
                        assert(s.take(pat.len() as int)[i] == e[i]);
                        assert(s.take(pat.len() as int) != pat);
                        assert(s.skip(1) =~= e.skip(1) + render(rest));
                        lemma_replace_plain_front(e.skip(1), render(rest), pat, rep);
                        assert(seq![s[0]] + (e.skip(1) + replace_seq(render(rest), pat, rep)) =~= e + replace_seq(render(rest), pat, rep));
                    } else {
                        assert(render(rest).len() < pat.len());
                        assert(replace_seq(render(rest), pat, rep) == render(rest));
                    }
                }
            },
        }
    }
}

/// Reading an entity other than `&amp;` keeps the pieces well formed.
pub proof fn lemma_decode_ok(ps: Seq<EscPiece>, k: nat)
    requires
        pieces_ok(ps),
        0 < k < 5,
    ensures
        pieces_ok(decode_pieces(ps, k)),
{
    let d = decode_pieces(ps, k);
    assert forall|i: int| 0 <= i < d.len() implies match #[trigger] d[i] {
        EscPiece::Plain(c) => c != '&',
        EscPiece::Entity(k) => k < 5,
    } by {
        assert(match ps[i] {
            EscPiece::Plain(c) => c != '&',
            EscPiece::Entity(k) => k < 5,
        });
    }
}

/// The pieces of a text's escape are well formed.
pub proof fn lemma_escape_pieces_ok(t: Seq<char>)
    ensures
        pieces_ok(t.map_values(|c: char| escape_piece(c))),
{
    let m = t.map_values(|c: char| escape_piece(c));
    assert forall|i: int| 0 <= i < m.len() implies match #[trigger] m[i] {
        EscPiece::Plain(c) => c != '&',
        EscPiece::Entity(k) => k < 5,
    } by {
        assert(m[i] == escape_piece(t[i]));
    }
}

/// The pieces of a text written as it is.
pub open spec fn plain_pieces(t: Seq<char>) -> Seq<EscPiece> {
    t.map_values(|c: char| plain_piece(c))
}

/// A character written as it is.
pub open spec fn plain_piece(c: char) -> EscPiece {
    EscPiece::Plain(c)
}

/// Characters written as they are give back the text.
pub proof fn lemma_render_plain(t: Seq<char>)
    ensures
        render(plain_pieces(t)) == t,
        plain_pieces(t).len() == t.len(),
        forall|i: int| 0 <= i < t.len() ==> #[trigger] plain_pieces(t)[i] == EscPiece::Plain(t[i]),
    decreases t.len(),
{
    let m = plain_pieces(t);
    if t.len() > 0 {
        lemma_render_plain(t.skip(1));
        assert(m.skip(1) =~= plain_pieces(t.skip(1)));
        assert(seq![t[0]] + t.skip(1) =~= t);
    } else {
        assert(render(m) =~= t);
    }
}

} // verus!

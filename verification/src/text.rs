//! Character-level text handling shared by the applications: conversions
//! between strings and character vectors, whitespace trimming, ASCII case
//! folding, searching, line splitting and decimal numbers.
use vstd::prelude::*;
use vstd::string::*;

verus! {

/// `c` is white space in the sense of Unicode's `White_Space` property,
/// which is what `char::is_whitespace` and `str::trim` use.
pub open spec fn is_white(c: char) -> bool {
    let n = c as u32;
    ||| 0x09 <= n <= 0x0D
    ||| n == 0x20
    ||| n == 0x85
    ||| n == 0xA0
    ||| n == 0x1680
    ||| 0x2000 <= n <= 0x200A
    ||| n == 0x2028
    ||| n == 0x2029
    ||| n == 0x202F
    ||| n == 0x205F
    ||| n == 0x3000
}

/// `s` without its leading white space.
pub open spec fn trim_start_seq(s: Seq<char>) -> Seq<char>
    decreases s.len(),
{
    if s.len() > 0 && is_white(s[0]) {
        trim_start_seq(s.drop_first())
    } else {
        s
    }
}

/// `s` without its trailing white space.
pub open spec fn trim_end_seq(s: Seq<char>) -> Seq<char>
    decreases s.len(),
{
    if s.len() > 0 && is_white(s.last()) {
        trim_end_seq(s.drop_last())
    } else {
        s
    }
}

/// `s` without leading and trailing white space, as `str::trim` gives it.
pub open spec fn trim_seq(s: Seq<char>) -> Seq<char> {
    trim_end_seq(trim_start_seq(s))
}

/// The ASCII lower-case form of `c` (other characters are unchanged).
pub open spec fn lower_char(c: char) -> char {
    if 'A' <= c <= 'Z' {
        ((c as u32) + 32) as char
    } else {
        c
    }
}

/// The ASCII lower-case form of `s`, as `str::to_ascii_lowercase` gives it.
pub open spec fn ascii_lower_seq(s: Seq<char>) -> Seq<char> {
    Seq::new(s.len(), |i: int| lower_char(s[i]))
}

/// `needle` occurs in `hay` as a contiguous piece (the empty needle always does).
pub open spec fn contains_seq(hay: Seq<char>, needle: Seq<char>) -> bool {
    exists|i: int| 0 <= i <= hay.len() - needle.len() && #[trigger] hay.subrange(i, i + needle.len()) == needle
}

/// `s` begins with `p`.
pub open spec fn starts_with_seq(s: Seq<char>, p: Seq<char>) -> bool {
    p.len() <= s.len() && s.subrange(0, p.len() as int) == p
}

/// The characters of `s`, one element per Unicode scalar value.
pub fn chars_of(s: &str) -> (v: Vec<char>)
    ensures
        v@ == s@,
{
    let mut v: Vec<char> = Vec::new();
    for c in it: s.chars()
        invariant
            it.seq() == s@,
            v@ == it.seq().take(it.index() as int),
    {
        v.push(c);
    }
    v
}

/// Appends one character to a string (`String::push`).
#[verifier::external_body]
fn push_char(s: &mut String, c: char)
    ensures
        final(s)@ == old(s)@.push(c),
{
    s.push(c);
}

/// Builds a string from its characters.
pub fn string_of(v: &Vec<char>) -> (s: String)
    ensures
        s@ == v@,
{
    let mut s = String::new();
    let mut i: usize = 0;
    while i < v.len()
        invariant
            i <= v.len(),
            s@ == v@.take(i as int),
        decreases v.len() - i,
    {
        push_char(&mut s, v[i]);
        assert(v@.take(i as int).push(v@[i as int]) =~= v@.take(i + 1));
        i = i + 1;
    }
    assert(v@.take(v.len() as int) =~= v@);
    s
}

/// Appends all of `b` to `a`.
pub fn extend_chars(a: &mut Vec<char>, b: &Vec<char>)
    ensures
        final(a)@ == old(a)@ + b@,
{
    let mut i: usize = 0;
    while i < b.len()
        invariant
            i <= b.len(),
            a@ == old(a)@ + b@.take(i as int),
        decreases b.len() - i,
    {
        a.push(b[i]);
        assert(old(a)@ + b@.take(i + 1) =~= (old(a)@ + b@.take(i as int)).push(b@[i as int]));
        i = i + 1;
    }
    assert(b@.take(b.len() as int) =~= b@);
}

/// Concatenates the characters of two strings into a new string.
pub fn concat2(a: &str, b: &str) -> (s: String)
    ensures
        s@ == a@ + b@,
{
    let mut v = chars_of(a);
    let w = chars_of(b);
    extend_chars(&mut v, &w);
    string_of(&v)
}

/// Concatenates the characters of three strings into a new string.
pub fn concat3(a: &str, b: &str, c: &str) -> (s: String)
    ensures
        s@ == a@ + b@ + c@,
{
    let mut v = chars_of(a);
    let w = chars_of(b);
    let x = chars_of(c);
    extend_chars(&mut v, &w);
    extend_chars(&mut v, &x);
    string_of(&v)
}

/// Whether two character sequences are equal.
pub fn chars_eq(a: &Vec<char>, b: &Vec<char>) -> (r: bool)
    ensures
        r == (a@ == b@),
{
    if a.len() != b.len() {
        return false;
    }
    let mut i: usize = 0;
    while i < a.len()
        invariant
            i <= a.len(),
            a.len() == b.len(),
            a@.take(i as int) == b@.take(i as int),
        decreases a.len() - i,
    {
        if a[i] != b[i] {
            return false;
        }
        assert(a@.take(i + 1) =~= a@.take(i as int).push(a@[i as int]));
        assert(b@.take(i + 1) =~= b@.take(i as int).push(b@[i as int]));
        i = i + 1;
    }
    assert(a@ =~= a@.take(a.len() as int));
    assert(b@ =~= b@.take(b.len() as int));
    true
}

/// Whether the characters `a` spell the string `b`.
pub fn chars_eq_str(a: &Vec<char>, b: &str) -> (r: bool)
    ensures
        r == (a@ == b@),
{
    let w = chars_of(b);
    chars_eq(a, &w)
}

/// Whether `s` begins with `p`.
pub fn starts_with(s: &Vec<char>, p: &Vec<char>) -> (r: bool)
    ensures
        r == starts_with_seq(s@, p@),
{
    if p.len() > s.len() {
        return false;
    }
    let mut i: usize = 0;
    while i < p.len()
        invariant
            i <= p.len() <= s.len(),
            s@.take(i as int) == p@.take(i as int),
        decreases p.len() - i,
    {
        if s[i] != p[i] {
            assert(s@.subrange(0, p.len() as int)[i as int] != p@[i as int]);
            return false;
        }
        assert(s@.take(i + 1) =~= s@.take(i as int).push(s@[i as int]));
        assert(p@.take(i + 1) =~= p@.take(i as int).push(p@[i as int]));
        i = i + 1;
    }
    assert(p@ =~= p@.take(p.len() as int));
    assert(s@.subrange(0, p.len() as int) =~= s@.take(p.len() as int));
    true
}

/// Whether `s` begins with the string `p`.
pub fn starts_with_str(s: &Vec<char>, p: &str) -> (r: bool)
    ensures
        r == starts_with_seq(s@, p@),
{
    let w = chars_of(p);
    starts_with(s, &w)
}

/// The characters of `s` from position `from` up to (not including) `to`.
pub fn sub_chars(s: &Vec<char>, from: usize, to: usize) -> (r: Vec<char>)
    requires
        from <= to <= s.len(),
    ensures
        r@ == s@.subrange(from as int, to as int),
{
    let mut r: Vec<char> = Vec::new();
    let mut i: usize = from;
    while i < to
        invariant
            from <= i <= to <= s.len(),
            r@ == s@.subrange(from as int, i as int),
        decreases to - i,
    {
        r.push(s[i]);
        assert(s@.subrange(from as int, i + 1) =~= s@.subrange(from as int, i as int).push(s@[i as int]));
        i = i + 1;
    }
    r
}

/// The ASCII lower-case form of a character.
pub fn lower(c: char) -> (r: char)
    ensures
        r == lower_char(c),
{
    if 'A' <= c && c <= 'Z' {
        let n: u32 = (c as u32) + 32;
        assert(n < 0xD800);
        char_from_ascii_code(n)
    } else {
        c
    }
}

/// The character whose code is `n` (below the surrogate range).
fn char_from_ascii_code(n: u32) -> (c: char)
    requires
        n < 0x80,
    ensures
        c as u32 == n,
        c == n as char,
{
    (n as u8) as char
}

/// The ASCII lower-case form of `s`.
pub fn ascii_lower(s: &Vec<char>) -> (r: Vec<char>)
    ensures
        r@ == ascii_lower_seq(s@),
{
    let mut r: Vec<char> = Vec::new();
    let mut i: usize = 0;
    while i < s.len()
        invariant
            i <= s.len(),
            r@ =~= ascii_lower_seq(s@).take(i as int),
        decreases s.len() - i,
    {
        let c = lower(s[i]);
        r.push(c);
        i = i + 1;
    }
    r
}

/// Whether `needle` occurs in `hay`.
pub fn contains(hay: &Vec<char>, needle: &Vec<char>) -> (r: bool)
    ensures
        r == contains_seq(hay@, needle@),
{
    if needle.len() > hay.len() {
        return false;
    }
    let last = hay.len() - needle.len();
    let mut i: usize = 0;
    while i <= last
        invariant
            last == hay.len() - needle.len(),
            i <= last + 1,
            forall|k: int| 0 <= k < i ==> #[trigger] hay@.subrange(k, k + needle.len()) != needle@,
        decreases last + 1 - i,
    {
        let mut j: usize = 0;
        let mut same = true;
        while j < needle.len()
            invariant
                i <= last,
                last == hay.len() - needle.len(),
                j <= needle.len(),
                same == (forall|k: int| 0 <= k < j ==> hay@[i + k] == needle@[k]),
            decreases needle.len() - j,
        {
            if hay[i + j] != needle[j] {
                same = false;
            }
            j = j + 1;
        }
        if same {
            assert(hay@.subrange(i as int, i + needle.len()) =~= needle@);
            return true;
        }
        assert(hay@.subrange(i as int, i + needle.len()) != needle@) by {
            let k = choose|k: int| 0 <= k < needle.len() && hay@[i + k] != needle@[k];
            assert(hay@.subrange(i as int, i + needle.len())[k] == hay@[i + k]);
        }
        i = i + 1;
    }
    false
}


/// Whether `c` is white space (see `is_white`).
pub fn is_white_char(c: char) -> (r: bool)
    ensures
        r == is_white(c),
{
    let n = c as u32;
    (0x09 <= n && n <= 0x0D) || n == 0x20 || n == 0x85 || n == 0xA0 || n == 0x1680 || (0x2000 <= n
        && n <= 0x200A) || n == 0x2028 || n == 0x2029 || n == 0x202F || n == 0x205F || n == 0x3000
}

proof fn lemma_trim_start(s: Seq<char>, i: int)
    requires
        0 <= i <= s.len(),
        forall|k: int| 0 <= k < i ==> is_white(#[trigger] s[k]),
        i == s.len() || !is_white(s[i]),
    ensures
        trim_start_seq(s) == s.skip(i),
    decreases i,
{
    if i == 0 {
        assert(s.skip(0) =~= s);
    } else {
        let t = s.drop_first();
        assert forall|k: int| 0 <= k < i - 1 implies is_white(#[trigger] t[k]) by {
            assert(t[k] == s[k + 1]);
        }
        lemma_trim_start(t, i - 1);
        assert(t.skip(i - 1) =~= s.skip(i));
    }
}

proof fn lemma_trim_end(s: Seq<char>, j: int)
    requires
        0 <= j <= s.len(),
        forall|k: int| j <= k < s.len() ==> is_white(#[trigger] s[k]),
        j == 0 || !is_white(s[j - 1]),
    ensures
        trim_end_seq(s) == s.take(j),
    decreases s.len() - j,
{
    if j == s.len() {
        assert(s.take(j) =~= s);
    } else {
        let t = s.drop_last();
        assert(s.last() == s[s.len() - 1]);
        lemma_trim_end(t, j);
        assert(t.take(j) =~= s.take(j));
    }
}

/// `s` without leading and trailing white space (`str::trim`).
pub fn trim(s: &Vec<char>) -> (r: Vec<char>)
    ensures
        r@ == trim_seq(s@),
{
    let mut i: usize = 0;
    while i < s.len() && is_white_char(s[i])
        invariant
            i <= s.len(),
            forall|k: int| 0 <= k < i ==> is_white(#[trigger] s@[k]),
        decreases s.len() - i,
    {
        i = i + 1;
    }
    proof {
        lemma_trim_start(s@, i as int);
    }
    let mut j: usize = s.len();
    while j > i && is_white_char(s[j - 1])
        invariant
            i <= j <= s.len(),
            forall|k: int| j <= k < s.len() ==> is_white(#[trigger] s@[k]),
        decreases j - i,
    {
        j = j - 1;
    }
    proof {
        let t = s@.skip(i as int);
        assert forall|k: int| j - i <= k < t.len() implies is_white(#[trigger] t[k]) by {
            assert(t[k] == s@[k + i]);
        }
        if j > i {
            assert(t[j - i - 1] == s@[j - 1]);
        }
        lemma_trim_end(t, j - i);
        assert(t.take(j - i) =~= s@.subrange(i as int, j as int));
    }
    sub_chars(s, i, j)
}

/// `line` without one trailing carriage return.
pub open spec fn strip_cr(line: Seq<char>) -> Seq<char> {
    if line.len() > 0 && line.last() == '\r' {
        line.drop_last()
    } else {
        line
    }
}

/// The lines of `s` when the characters `cur` have been read since the last
/// line break.
pub open spec fn lines_acc(s: Seq<char>, cur: Seq<char>) -> Seq<Seq<char>>
    decreases s.len(),
{
    if s.len() == 0 {
        if cur.len() == 0 {
            seq![]
        } else {
            seq![cur]
        }
    } else if s[0] == '\n' {
        seq![strip_cr(cur)] + lines_acc(s.drop_first(), seq![])
    } else {
        lines_acc(s.drop_first(), cur.push(s[0]))
    }
}

/// The lines of `s` as `str::lines` yields them: split at each `\n`, a `\r`
/// just before the `\n` removed, and no empty line after a final `\n`.
pub open spec fn lines_seq(s: Seq<char>) -> Seq<Seq<char>> {
    lines_acc(s, seq![])
}

/// Removes one trailing carriage return.
fn strip_cr_vec(line: Vec<char>) -> (r: Vec<char>)
    ensures
        r@ == strip_cr(line@),
{
    let mut line = line;
    if line.len() > 0 && line[line.len() - 1] == '\r' {
        line.pop();
    }
    line
}

/// The lines of `s` (`str::lines`).
pub fn lines_of(s: &Vec<char>) -> (r: Vec<Vec<char>>)
    ensures
        r@.map_values(|l: Vec<char>| l@) == lines_seq(s@),
{
    let mut out: Vec<Vec<char>> = Vec::new();
    let mut cur: Vec<char> = Vec::new();
    let mut i: usize = 0;
    assert(s@.skip(0) =~= s@);
    assert(out@.map_values(|l: Vec<char>| l@) + lines_acc(s@, cur@) =~= lines_acc(s@, cur@));
    while i < s.len()
        invariant
            i <= s.len(),
            lines_seq(s@) == out@.map_values(|l: Vec<char>| l@) + lines_acc(s@.skip(i as int), cur@),
        decreases s.len() - i,
    {
        let ghost rest = s@.skip(i as int);
        assert(rest[0] == s@[i as int]);
        assert(rest.drop_first() =~= s@.skip(i + 1));
        let ghost before = out@.map_values(|l: Vec<char>| l@);
        if s[i] == '\n' {
            let line = strip_cr_vec(cur);
            let ghost lv = line@;
            out.push(line);
            cur = Vec::new();
            assert(out@.map_values(|l: Vec<char>| l@) =~= before.push(lv));
            assert(before + (seq![lv] + lines_acc(s@.skip(i + 1), seq![])) =~= before.push(lv)
                + lines_acc(s@.skip(i + 1), seq![]));
        } else {
            cur.push(s[i]);
        }
        i = i + 1;
    }
    let ghost before = out@.map_values(|l: Vec<char>| l@);
    assert(s@.skip(i as int) =~= Seq::<char>::empty());
    if cur.len() > 0 {
        let ghost cv = cur@;
        out.push(cur);
        assert(out@.map_values(|l: Vec<char>| l@) =~= before.push(cv));
        assert(before + seq![cv] =~= before.push(cv));
    } else {
        assert(before + Seq::<Seq<char>>::empty() =~= before);
    }
    out
}

/// The decimal digit character for `d` (`0..=9`).
pub open spec fn digit_char(d: int) -> char {
    (48 + d) as char
}

/// The decimal notation of `n`, without sign or leading zeros.
pub open spec fn dec_seq(n: nat) -> Seq<char>
    decreases n,
{
    if n < 10 {
        seq![digit_char(n as int)]
    } else {
        dec_seq(n / 10).push(digit_char((n % 10) as int))
    }
}

/// The decimal notation of a signed integer, with `-` before negative values.
pub open spec fn int_dec_seq(n: int) -> Seq<char> {
    if n < 0 {
        seq!['-'] + dec_seq((-n) as nat)
    } else {
        dec_seq(n as nat)
    }
}

fn digit(d: u64) -> (c: char)
    requires
        d < 10,
    ensures
        c == digit_char(d as int),
{
    ((48 + d) as u8) as char
}

/// The decimal digits of `n`.
pub fn dec_chars(n: u64) -> (r: Vec<char>)
    ensures
        r@ == dec_seq(n as nat),
    decreases n,
{
    if n < 10 {
        let mut v: Vec<char> = Vec::new();
        v.push(digit(n));
        assert(v@ =~= seq![digit_char(n as int)]);
        v
    } else {
        let mut v = dec_chars(n / 10);
        v.push(digit(n % 10));
        v
    }
}

/// The decimal notation of `n` (what `format!("{n}")` writes for an integer).
pub fn int_to_string(n: i64) -> (s: String)
    ensures
        s@ == int_dec_seq(n as int),
{
    if n < 0 {
        let m: u64 = if n == i64::MIN {
            9223372036854775808u64
        } else {
            (-n) as u64
        };
        let mut v: Vec<char> = Vec::new();
        v.push('-');
        let d = dec_chars(m);
        extend_chars(&mut v, &d);
        assert(v@ =~= seq!['-'] + dec_seq((-n) as nat));
        string_of(&v)
    } else {
        let d = dec_chars(n as u64);
        string_of(&d)
    }
}

/// The decimal notation of an unsigned `n`.
pub fn nat_to_string(n: u64) -> (s: String)
    ensures
        s@ == dec_seq(n as nat),
{
    let d = dec_chars(n);
    string_of(&d)
}

/// `c` is an ASCII decimal digit.
pub open spec fn is_digit(c: char) -> bool {
    '0' <= c <= '9'
}

/// The value of a string of decimal digits.
pub open spec fn digits_value(s: Seq<char>) -> nat
    decreases s.len(),
{
    if s.len() == 0 {
        0
    } else {
        digits_value(s.drop_last()) * 10 + ((s.last() as int - 48) as nat)
    }
}

/// `s` is a non-empty string of decimal digits.
pub open spec fn is_numeral(s: Seq<char>) -> bool {
    s.len() > 0 && forall|i: int| 0 <= i < s.len() ==> is_digit(#[trigger] s[i])
}

/// What `str::parse::<u64>` gives: an optional `+`, then decimal digits
/// whose value fits.
pub open spec fn parse_unsigned_seq(s: Seq<char>, max: nat) -> Option<nat> {
    let body = if s.len() > 0 && s[0] == '+' {
        s.drop_first()
    } else {
        s
    };
    if is_numeral(body) && digits_value(body) <= max {
        Some(digits_value(body))
    } else {
        None
    }
}

/// What `str::parse::<i32>` (or another signed type) gives: an optional `+`
/// or `-`, then decimal digits whose signed value lies in `-(max + 1)..=max`.
pub open spec fn parse_signed_seq(s: Seq<char>, max: nat) -> Option<int> {
    if s.len() > 0 && s[0] == '-' {
        let body = s.drop_first();
        if is_numeral(body) && digits_value(body) <= max + 1 {
            Some(-digits_value(body))
        } else {
            None
        }
    } else {
        match parse_unsigned_seq(s, max) {
            Some(v) => Some(v as int),
            None => None,
        }
    }
}

proof fn lemma_digits_value_monotone(s: Seq<char>, k: int)
    requires
        0 <= k <= s.len(),
        forall|i: int| 0 <= i < s.len() ==> is_digit(#[trigger] s[i]),
    ensures
        digits_value(s.take(k)) <= digits_value(s),
    decreases s.len() - k,
{
    if k < s.len() {
        lemma_digits_value_monotone(s, k + 1);
        assert(s.take(k + 1).drop_last() =~= s.take(k));
        assert(s.take(k + 1).last() == s[k]);
        assert(is_digit(s[k]));
    } else {
        assert(s.take(k) =~= s);
    }
}

/// The value of the decimal digits `b` if they form a numeral whose value is
/// at most `max`; `None` otherwise.
pub fn parse_digits(b: &Vec<char>, max: u64) -> (r: Option<u64>)
    ensures
        r == (if is_numeral(b@) && digits_value(b@) <= max {
            Some(digits_value(b@) as u64)
        } else {
            None::<u64>
        }),
{
    if b.len() == 0 {
        return None;
    }
    let mut acc: u64 = 0;
    let mut i: usize = 0;
    while i < b.len()
        invariant
            i <= b.len(),
            b.len() > 0,
            forall|k: int| 0 <= k < i ==> is_digit(#[trigger] b@[k]),
            acc == digits_value(b@.take(i as int)),
            acc <= max,
        decreases b.len() - i,
    {
        let c = b[i];
        if !('0' <= c && c <= '9') {
            assert(!is_numeral(b@));
            return None;
        }
        let d: u64 = (c as u32 - 48) as u64;
        assert(b@.take(i + 1).drop_last() =~= b@.take(i as int));
        assert(b@.take(i + 1).last() == c);
        if d > max || acc > (max - d) / 10 {
            proof {
                assert(acc * 10 + d > max) by (nonlinear_arith)
                    requires
                        d > max || acc > (max - d) / 10,
                ;
                assert forall|k: int| 0 <= k < i + 1 implies is_digit(#[trigger] b@[k]) by {}
                if is_numeral(b@) {
                    lemma_digits_value_monotone(b@, i + 1);
                }
            }
            return None;
        }
        proof {
            assert(acc * 10 + d <= max) by (nonlinear_arith)
                requires
                    acc <= (max - d) / 10,
                    d <= max,
            ;
        }
        acc = acc * 10 + d;
        i = i + 1;
    }
    assert(b@.take(b.len() as int) =~= b@);
    Some(acc)
}


/// The number that `str::parse` reads from `s` for an unsigned type whose
/// largest value is `max`.
pub fn parse_unsigned(s: &Vec<char>, max: u64) -> (r: Option<u64>)
    ensures
        match parse_unsigned_seq(s@, max as nat) {
            Some(v) => r == Some(v as u64),
            None => r is None,
        },
{
    if s.len() > 0 && s[0] == '+' {
        let b = sub_chars(s, 1, s.len());
        assert(b@ =~= s@.drop_first());
        parse_digits(&b, max)
    } else {
        parse_digits(s, max)
    }
}

/// The number that `str::parse` reads from `s` for a signed type whose
/// largest value is `max` (and smallest `-(max + 1)`).
pub fn parse_signed(s: &Vec<char>, max: u64) -> (r: Option<i64>)
    requires
        max < 0x7fff_ffff_ffff_ffff,
    ensures
        match parse_signed_seq(s@, max as nat) {
            Some(v) => r == Some(v as i64),
            None => r is None,
        },
{
    if s.len() > 0 && s[0] == '-' {
        let b = sub_chars(s, 1, s.len());
        assert(b@ =~= s@.drop_first());
        match parse_digits(&b, max + 1) {
            Some(v) => Some(-(v as i64)),
            None => None,
        }
    } else {
        match parse_unsigned(s, max) {
            Some(v) => Some(v as i64),
            None => None,
        }
    }
}


/// The decimal notation of `n` is a non-empty string of digits whose value
/// is `n`.
pub proof fn lemma_dec_value(n: nat)
    ensures
        is_numeral(dec_seq(n)),
        digits_value(dec_seq(n)) == n,
        dec_seq(n).len() >= 1,
    decreases n,
{
    if n < 10 {
        let s = dec_seq(n);
        assert(s.drop_last() =~= Seq::<char>::empty());
        assert(s.last() == digit_char(n as int));
        assert((digit_char(n as int) as int) == 48 + n);
        assert(digits_value(s.drop_last()) == 0);
        assert(digits_value(s) == digits_value(s.drop_last()) * 10 + ((s.last() as int - 48) as nat));
        assert(is_digit(s[0]));
    } else {
        lemma_dec_value(n / 10);
        let s = dec_seq(n);
        assert(s.drop_last() =~= dec_seq(n / 10));
        assert(s.last() == digit_char((n % 10) as int));
        assert((digit_char((n % 10) as int) as int) == 48 + n % 10);
        assert(n == (n / 10) * 10 + n % 10) by (nonlinear_arith);
        assert(digits_value(s) == digits_value(s.drop_last()) * 10 + ((s.last() as int - 48) as nat));
        assert(digits_value(s.drop_last()) == n / 10);
        assert(((s.last() as int - 48) as nat) == n % 10);
        assert forall|i: int| 0 <= i < s.len() implies is_digit(#[trigger] s[i]) by {
            if i < s.len() - 1 {
                assert(s[i] == dec_seq(n / 10)[i]);
            }
        }
    }
}

/// Different numbers have different decimal notations.
pub proof fn lemma_dec_injective(a: nat, b: nat)
    requires
        dec_seq(a) == dec_seq(b),
    ensures
        a == b,
{
    lemma_dec_value(a);
    lemma_dec_value(b);
}

/// What `str::parse` reads back from the decimal notation of a number in
/// range is that number.
pub proof fn lemma_parse_dec(n: int, max: nat)
    requires
        -(max + 1) <= n <= max,
    ensures
        parse_signed_seq(int_dec_seq(n), max) == Some(n),
{
    if n < 0 {
        let m = (-n) as nat;
        lemma_dec_value(m);
        let s = int_dec_seq(n);
        assert(s[0] == '-');
        assert(s.drop_first() =~= dec_seq(m));
    } else {
        let m = n as nat;
        lemma_dec_value(m);
        let s = dec_seq(m);
        assert(is_digit(s[0]));
    }
}

/// A line without line breaks followed by a newline reads as that line
/// (after the characters `cur`, with a final carriage return removed).
pub proof fn lemma_one_line(x: Seq<char>, cur: Seq<char>)
    requires
        forall|i: int| 0 <= i < x.len() ==> x[i] != '\n',
    ensures
        lines_acc(x + seq!['\n'], cur) == seq![strip_cr(cur + x)],
    decreases x.len(),
{
    let t = x + seq!['\n'];
    if x.len() == 0 {
        assert(t =~= seq!['\n']);
        assert(t.drop_first() =~= Seq::<char>::empty());
        assert(cur + x =~= cur);
        assert(lines_acc(t.drop_first(), seq![]) =~= Seq::<Seq<char>>::empty());
        assert(seq![strip_cr(cur)] + Seq::<Seq<char>>::empty() =~= seq![strip_cr(cur)]);
    } else {
        assert(t[0] == x[0]);
        assert(t.drop_first() =~= x.drop_first() + seq!['\n']);
        lemma_one_line(x.drop_first(), cur.push(x[0]));
        assert(cur.push(x[0]) + x.drop_first() =~= cur + x);
    }
}

/// Reading text that starts with complete lines `s1` continues with the
/// lines of `s2`.
pub proof fn lemma_lines_split(s1: Seq<char>, s2: Seq<char>, cur: Seq<char>)
    requires
        s1.len() > 0,
        s1.last() == '\n',
    ensures
        lines_acc(s1 + s2, cur) == lines_acc(s1, cur) + lines_acc(s2, seq![]),
    decreases s1.len(),
{
    let t = s1 + s2;
    assert(t[0] == s1[0]);
    if s1.len() == 1 {
        assert(t.drop_first() =~= s2);
        assert(s1.drop_first() =~= Seq::<char>::empty());
        assert(lines_acc(s1.drop_first(), seq![]) =~= Seq::<Seq<char>>::empty());
        assert(lines_acc(s1, cur) =~= seq![strip_cr(cur)] + Seq::<Seq<char>>::empty());
    } else {
        assert(t.drop_first() =~= s1.drop_first() + s2);
        assert(s1.drop_first().last() == '\n');
        if s1[0] == '\n' {
            lemma_lines_split(s1.drop_first(), s2, seq![]);
            assert(seq![strip_cr(cur)] + (lines_acc(s1.drop_first(), seq![]) + lines_acc(s2, seq![]))
                =~= (seq![strip_cr(cur)] + lines_acc(s1.drop_first(), seq![])) + lines_acc(s2, seq![]));
        } else {
            lemma_lines_split(s1.drop_first(), s2, cur.push(s1[0]));
        }
    }
}

/// A trimmed non-empty text does not end in a carriage return.
pub proof fn lemma_trim_keeps_last(x: Seq<char>)
    requires
        trim_seq(x) == x,
        x.len() > 0,
    ensures
        x.last() != '\r',
{
    if x.last() == '\r' {
        assert(is_white(x.last()));
        lemma_trim_end_shorter(trim_start_seq(x));
        lemma_trim_start_shorter(x);
    }
}

proof fn lemma_trim_start_shorter(s: Seq<char>)
    ensures
        trim_start_seq(s).len() <= s.len(),
        trim_start_seq(s).len() == s.len() ==> trim_start_seq(s) == s,
    decreases s.len(),
{
    if s.len() > 0 && is_white(s[0]) {
        lemma_trim_start_shorter(s.drop_first());
    }
}

proof fn lemma_trim_end_shorter(s: Seq<char>)
    ensures
        trim_end_seq(s).len() <= s.len(),
        s.len() > 0 && is_white(s.last()) ==> trim_end_seq(s).len() < s.len(),
    decreases s.len(),
{
    if s.len() > 0 && is_white(s.last()) {
        lemma_trim_end_shorter(s.drop_last());
    }
}

} // verus!

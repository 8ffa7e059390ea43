//! Texts as sequences of characters: numbers in decimal and hexadecimal, fields, lines
//! and searching.

use vstd::prelude::*;
use vstd::std_specs::iter::IteratorSpec;

verus! {

/// `String::push` of std, taken on trust: afterwards the string holds the characters
/// that it held before and `ch` behind them.
pub assume_specification[ String::push ](s: &mut String, ch: char)
    ensures
        final(s)@ == old(s)@.push(ch),
;

/// The characters of `s`, in order.
pub fn to_chars(s: &str) -> (v: Vec<char>)
    ensures
        v@ == s@,
{
    let mut v: Vec<char> = Vec::new();
    let mut it = s.chars();
    loop
        invariant
            it.obeys_prophetic_iter_laws(),
            it.decrease() is Some,
            v@ + it.remaining() == s@,
        ensures
            v@ == s@,
        decreases it.decrease()->0,
    {
        match it.next() {
            Some(c) => {
                v.push(c);
            },
            None => {
                assert(v@ =~= s@);
                break;
            },
        }
    }
    v
}

/// The string made of the characters of `v`, in order.
pub fn from_chars(v: &Vec<char>) -> (s: String)
    ensures
        s@ == v@,
{
    let mut s = String::new();
    let mut i: usize = 0;
    while i < v.len()
        invariant
            i <= v.len(),
            s@ == v@.subrange(0, i as int),
        decreases v.len() - i,
    {
        s.push(v[i]);
        i = i + 1;
    }
    s
}


/// Unicode white space, the characters at which a line of text is cut into fields.
pub open spec fn is_space(c: char) -> bool {
    let n = c as u32;
    (0x09 <= n <= 0x0D) || n == 0x20 || n == 0x85 || n == 0xA0 || n == 0x1680 || (0x2000 <= n
        <= 0x200A) || n == 0x2028 || n == 0x2029 || n == 0x202F || n == 0x205F || n == 0x3000
}

pub fn char_is_space(c: char) -> (r: bool)
    ensures
        r == is_space(c),
{
    let n: u32 = c as u32;
    (0x09 <= n && n <= 0x0D) || n == 0x20 || n == 0x85 || n == 0xA0 || n == 0x1680 || (0x2000 <= n
        && n <= 0x200A) || n == 0x2028 || n == 0x2029 || n == 0x202F || n == 0x205F || n == 0x3000
}

pub open spec fn is_digit(c: char) -> bool {
    '0' <= c <= '9'
}

/// The value of a decimal digit.
pub open spec fn digit_value(c: char) -> nat
    recommends
        is_digit(c),
{
    (c as u32 - '0' as u32) as nat
}

/// The character that writes a number below ten.
pub open spec fn digit_char(d: nat) -> char
    recommends
        d < 10,
{
    (('0' as u32 + d) as u32) as char
}

pub open spec fn all_digits(s: Seq<char>) -> bool {
    forall|i: int| 0 <= i < s.len() ==> is_digit(#[trigger] s[i])
}

/// The number that a run of decimal digits writes, most significant digit first.
pub open spec fn digits_value(s: Seq<char>) -> nat
    decreases s.len(),
{
    if s.len() == 0 {
        0
    } else {
        digits_value(s.drop_last()) * 10 + digit_value(s.last())
    }
}

/// The shortest decimal writing of `n`.
pub open spec fn decimal_text(n: nat) -> Seq<char>
    decreases n,
{
    if n < 10 {
        seq![digit_char(n)]
    } else {
        decimal_text(n / 10).push(digit_char(n % 10))
    }
}

/// What reading `s` as an unsigned decimal number no greater than `max` gives: an optional
/// `+`, then at least one digit and nothing else.
pub open spec fn parse_unsigned(s: Seq<char>, max: nat) -> Option<nat> {
    let body = if s.len() > 0 && s[0] == '+' {
        s.drop_first()
    } else {
        s
    };
    if body.len() > 0 && all_digits(body) && digits_value(body) <= max {
        Some(digits_value(body))
    } else {
        None
    }
}

pub proof fn lemma_digits_value_monotone(s: Seq<char>, k: int)
    requires
        0 <= k <= s.len(),
    ensures
        digits_value(s.subrange(0, k)) <= digits_value(s),
    decreases s.len(),
{
    if k < s.len() {
        lemma_digits_value_monotone(s.drop_last(), k);
        assert(s.drop_last().subrange(0, k) =~= s.subrange(0, k));
    } else {
        assert(s.subrange(0, k) =~= s);
    }
}

pub proof fn lemma_decimal_text_digits(n: nat)
    ensures
        decimal_text(n).len() >= 1,
        all_digits(decimal_text(n)),
        digits_value(decimal_text(n)) == n,
        decimal_text(n)[0] != '+',
    decreases n,
{
    if n < 10 {
        let t = decimal_text(n);
        assert(t.drop_last() =~= Seq::<char>::empty());
        assert(digits_value(t.drop_last()) == 0);
    } else {
        lemma_decimal_text_digits(n / 10);
        let t = decimal_text(n);
        assert(t.drop_last() =~= decimal_text(n / 10));
    }
}

/// Reading the decimal writing of a number gives the number back.
pub proof fn lemma_parse_decimal_text(n: nat, max: nat)
    requires
        n <= max,
    ensures
        parse_unsigned(decimal_text(n), max) == Some(n),
{
    lemma_decimal_text_digits(n);
}

/// Reads `s` as an unsigned decimal number no greater than `max`.
pub fn parse_number(s: &Vec<char>, max: u64) -> (r: Option<u64>)
    requires
        max <= 0xFFFF_FFFF_FFFF,
    ensures
        r == match parse_unsigned(s@, max as nat) {
            Some(n) => Some(n as u64),
            None => None,
        },
{
    let start: usize = if s.len() > 0 && s[0] == '+' {
        1
    } else {
        0
    };
    let ghost body = s@.subrange(start as int, s@.len() as int);
    assert(body =~= if s@.len() > 0 && s@[0] == '+' {
        s@.drop_first()
    } else {
        s@
    });
    if start == s.len() {
        return None;
    }
    let mut acc: u64 = 0;
    let mut i: usize = start;
    while i < s.len()
        invariant
            start <= i <= s.len(),
            max <= 0xFFFF_FFFF_FFFF,
            body == s@.subrange(start as int, s@.len() as int),
            body == if s@.len() > 0 && s@[0] == '+' {
                s@.drop_first()
            } else {
                s@
            },
            all_digits(body.subrange(0, i - start)),
            acc == digits_value(body.subrange(0, i - start)),
            acc <= max,
        decreases s.len() - i,
    {
        let c = s[i];
        let ghost next = body.subrange(0, i - start + 1);
        assert(next.drop_last() =~= body.subrange(0, i - start));
        assert(next.last() == c);
        if !('0' <= c && c <= '9') {
            assert(!is_digit(body[i - start]));
            return None;
        }
        let d: u64 = (c as u32 - '0' as u32) as u64;
        acc = acc * 10 + d;
        assert(acc == digits_value(next));
        if acc > max {
            proof {
                lemma_digits_value_monotone(body, i - start + 1);
            }
            return None;
        }
        i = i + 1;
    }
    assert(body.subrange(0, i - start) =~= body);
    Some(acc)
}

/// Appends the decimal writing of `n` to `out`.
pub fn push_decimal(out: &mut Vec<char>, n: u64)
    ensures
        final(out)@ == old(out)@ + decimal_text(n as nat),
    decreases n,
{
    if n >= 10 {
        push_decimal(out, n / 10);
    }
    let d: u32 = (n % 10) as u32;
    let c: char = char_of_digit(d);
    out.push(c);
    assert(final(out)@ =~= old(out)@ + decimal_text(n as nat));
}

/// The character that writes the digit `d`.
pub fn char_of_digit(d: u32) -> (c: char)
    requires
        d < 10,
    ensures
        c == digit_char(d as nat),
{
    if d == 0 {
        '0'
    } else if d == 1 {
        '1'
    } else if d == 2 {
        '2'
    } else if d == 3 {
        '3'
    } else if d == 4 {
        '4'
    } else if d == 5 {
        '5'
    } else if d == 6 {
        '6'
    } else if d == 7 {
        '7'
    } else if d == 8 {
        '8'
    } else {
        '9'
    }
}


/// The character that writes a number below sixteen, with capital or small letters.
pub open spec fn hex_digit_char(d: nat, upper: bool) -> char
    recommends
        d < 16,
{
    if d < 10 {
        digit_char(d)
    } else if upper {
        (('A' as u32 + (d - 10)) as u32) as char
    } else {
        (('a' as u32 + (d - 10)) as u32) as char
    }
}

/// The shortest hexadecimal writing of `n`.
pub open spec fn hex_text(n: nat, upper: bool) -> Seq<char>
    decreases n,
{
    if n < 16 {
        seq![hex_digit_char(n, upper)]
    } else {
        hex_text(n / 16, upper).push(hex_digit_char(n % 16, upper))
    }
}

/// The character that writes the hexadecimal digit `d`.
pub fn char_of_hex_digit(d: u32, upper: bool) -> (c: char)
    requires
        d < 16,
    ensures
        c == hex_digit_char(d as nat, upper),
{
    if d < 10 {
        char_of_digit(d)
    } else if d == 10 {
        if upper { 'A' } else { 'a' }
    } else if d == 11 {
        if upper { 'B' } else { 'b' }
    } else if d == 12 {
        if upper { 'C' } else { 'c' }
    } else if d == 13 {
        if upper { 'D' } else { 'd' }
    } else if d == 14 {
        if upper { 'E' } else { 'e' }
    } else {
        if upper { 'F' } else { 'f' }
    }
}

/// Appends the hexadecimal writing of `n` to `out`.
pub fn push_hex(out: &mut Vec<char>, n: u64, upper: bool)
    ensures
        final(out)@ == old(out)@ + hex_text(n as nat, upper),
    decreases n,
{
    if n >= 16 {
        push_hex(out, n / 16, upper);
    }
    let d: u32 = (n % 16) as u32;
    let c: char = char_of_hex_digit(d, upper);
    out.push(c);
    assert(final(out)@ =~= old(out)@ + hex_text(n as nat, upper));
}

/// Appends the characters of `lit` to `out`.
pub fn push_str(out: &mut Vec<char>, lit: &str)
    ensures
        final(out)@ == old(out)@ + lit@,
{
    let v = to_chars(lit);
    push_chars(out, &v);
}

/// Appends the characters of `v` to `out`.
pub fn push_chars(out: &mut Vec<char>, v: &Vec<char>)
    ensures
        final(out)@ == old(out)@ + v@,
{
    let mut i: usize = 0;
    while i < v.len()
        invariant
            i <= v.len(),
            out@ == old(out)@ + v@.subrange(0, i as int),
        decreases v.len() - i,
    {
        out.push(v[i]);
        i = i + 1;
        assert(out@ =~= old(out)@ + v@.subrange(0, i as int));
    }
    assert(v@.subrange(0, i as int) =~= v@);
}

/// Whether `v` holds exactly the characters of `lit`.
pub fn chars_are(v: &Vec<char>, lit: &str) -> (r: bool)
    ensures
        r == (v@ == lit@),
{
    let w = to_chars(lit);
    chars_equal(v, &w)
}

/// Whether the two hold the same characters.
pub fn chars_equal(v: &Vec<char>, w: &Vec<char>) -> (r: bool)
    ensures
        r == (v@ == w@),
{
    if v.len() != w.len() {
        return false;
    }
    let mut i: usize = 0;
    while i < v.len()
        invariant
            i <= v.len(),
            v.len() == w.len(),
            v@.subrange(0, i as int) == w@.subrange(0, i as int),
        decreases v.len() - i,
    {
        if v[i] != w[i] {
            assert(v@[i as int] != w@[i as int]);
            return false;
        }
        assert(v@.subrange(0, i + 1) =~= v@.subrange(0, i as int).push(v@[i as int]));
        assert(w@.subrange(0, i + 1) =~= w@.subrange(0, i as int).push(w@[i as int]));
        i = i + 1;
    }
    assert(v@.subrange(0, i as int) =~= v@);
    assert(w@.subrange(0, i as int) =~= w@);
    true
}

/// A copy of the characters of `v` from `lo` up to `hi`.
pub fn slice_chars(v: &Vec<char>, lo: usize, hi: usize) -> (r: Vec<char>)
    requires
        lo <= hi <= v.len(),
    ensures
        r@ == v@.subrange(lo as int, hi as int),
{
    let mut r: Vec<char> = Vec::new();
    let mut i: usize = lo;
    while i < hi
        invariant
            lo <= i <= hi <= v.len(),
            r@ == v@.subrange(lo as int, i as int),
        decreases hi - i,
    {
        r.push(v[i]);
        i = i + 1;
        assert(r@ =~= v@.subrange(lo as int, i as int));
    }
    r
}


/// The characters of an optional string.
pub open spec fn opt_text(o: Option<String>) -> Option<Seq<char>> {
    match o {
        Some(s) => Some(s@),
        None => None,
    }
}

/// The characters of each string of `v`, in the same order.
pub open spec fn texts(v: Seq<String>) -> Seq<Seq<char>> {
    Seq::new(v.len(), |i: int| v[i]@)
}

/// A copy of an optional string.
pub fn clone_opt_string(o: &Option<String>) -> (r: Option<String>)
    ensures
        r == *o,
        opt_text(r) == opt_text(*o),
{
    match o {
        Some(s) => Some(s.clone()),
        None => None,
    }
}

/// A copy of a list of strings.
pub fn clone_strings(v: &Vec<String>) -> (r: Vec<String>)
    ensures
        texts(r@) == texts(v@),
{
    let mut r: Vec<String> = Vec::new();
    let mut i: usize = 0;
    while i < v.len()
        invariant
            i <= v.len(),
            r@.len() == i,
            forall|k: int| 0 <= k < i ==> (#[trigger] r@[k])@ == v@[k]@,
        decreases v.len() - i,
    {
        r.push(v[i].clone());
        i = i + 1;
    }
    assert(texts(r@) =~= texts(v@));
    r
}

/// A copy of a list of bytes.
pub fn clone_bytes(v: &Vec<u8>) -> (r: Vec<u8>)
    ensures
        r@ == v@,
{
    let mut r: Vec<u8> = Vec::new();
    let mut i: usize = 0;
    while i < v.len()
        invariant
            i <= v.len(),
            r@ == v@.subrange(0, i as int),
        decreases v.len() - i,
    {
        r.push(v[i]);
        i = i + 1;
        assert(r@ =~= v@.subrange(0, i as int));
    }
    assert(v@.subrange(0, i as int) =~= v@);
    r
}


/// What `str::to_uppercase` makes of a text.
pub uninterp spec fn uppercase_text(s: Seq<char>) -> Seq<char>;

/// `str::to_uppercase` of std, taken on trust: the result is what `uppercase_text` names,
/// which depends on the characters of `s` alone. Nothing more is claimed of it.
#[verifier::external_body]
pub(crate) fn to_uppercase(s: &str) -> (r: String)
    ensures
        r@ == uppercase_text(s@),
{
    s.to_uppercase()
}


/// The texts of `v`, in the same order.
pub open spec fn views(v: Seq<Vec<char>>) -> Seq<Seq<char>> {
    Seq::new(v.len(), |i: int| v[i]@)
}

/// A field that has been read to its end, if it holds anything.
pub open spec fn closed_field(cur: Seq<char>) -> Seq<Seq<char>> {
    if cur.len() > 0 {
        seq![cur]
    } else {
        Seq::empty()
    }
}

/// The fields of `s` from place `i` on, where `cur` holds what was read of the field
/// that stands before `i`.
pub open spec fn fields_from(s: Seq<char>, i: int, cur: Seq<char>) -> Seq<Seq<char>>
    decreases s.len() - i,
{
    if i < 0 || i >= s.len() {
        closed_field(cur)
    } else if is_space(s[i]) {
        closed_field(cur) + fields_from(s, i + 1, Seq::empty())
    } else {
        fields_from(s, i + 1, cur.push(s[i]))
    }
}

/// The fields of a line: the runs of characters between white space, in their order.
pub open spec fn fields(s: Seq<char>) -> Seq<Seq<char>> {
    fields_from(s, 0, Seq::empty())
}

/// Cuts a line into its fields.
pub fn split_fields(s: &Vec<char>) -> (r: Vec<Vec<char>>)
    ensures
        views(r@) == fields(s@),
{
    let mut out: Vec<Vec<char>> = Vec::new();
    let mut cur: Vec<char> = Vec::new();
    let mut i: usize = 0;
    assert(views(out@) + fields_from(s@, 0, cur@) =~= fields(s@));
    while i < s.len()
        invariant
            i <= s.len(),
            views(out@) + fields_from(s@, i as int, cur@) == fields(s@),
        decreases s.len() - i,
    {
        let c = s[i];
        if char_is_space(c) {
            if cur.len() > 0 {
                let ghost before = views(out@);
                let ghost done = cur@;
                out.push(cur);
                cur = Vec::new();
                assert(views(out@) =~= before + closed_field(done));
                assert(views(out@) + fields_from(s@, i + 1, cur@) =~= before + (closed_field(done)
                    + fields_from(s@, i + 1, Seq::empty())));
            } else {
                assert(cur@ =~= Seq::<char>::empty());
                assert(views(out@) + fields_from(s@, i + 1, cur@) =~= views(out@) + (closed_field(
                    cur@,
                ) + fields_from(s@, i + 1, Seq::empty())));
            }
        } else {
            cur.push(c);
        }
        i = i + 1;
    }
    if cur.len() > 0 {
        let ghost before = views(out@);
        let ghost done = cur@;
        out.push(cur);
        assert(views(out@) =~= before + closed_field(done));
    } else {
        assert(views(out@) + closed_field(cur@) =~= views(out@));
    }
    out
}

/// A line without the carriage return at its end, if it has one.
pub open spec fn without_cr(line: Seq<char>) -> Seq<char> {
    if line.len() > 0 && line.last() == '\r' {
        line.drop_last()
    } else {
        line
    }
}

/// The lines of `s` from place `i` on, where `cur` holds what was read of the line that
/// stands before `i`.
pub open spec fn lines_from(s: Seq<char>, i: int, cur: Seq<char>) -> Seq<Seq<char>>
    decreases s.len() - i,
{
    if i < 0 || i >= s.len() {
        closed_field(cur)
    } else if s[i] == '\n' {
        seq![without_cr(cur)] + lines_from(s, i + 1, Seq::empty())
    } else {
        lines_from(s, i + 1, cur.push(s[i]))
    }
}

/// The lines of a text: what stands between line feeds, each without a carriage return
/// before its line feed. What follows the last line feed is a line if it holds anything.
pub open spec fn lines(s: Seq<char>) -> Seq<Seq<char>> {
    lines_from(s, 0, Seq::empty())
}

/// Cuts a text into its lines.
pub fn split_lines(s: &Vec<char>) -> (r: Vec<Vec<char>>)
    ensures
        views(r@) == lines(s@),
{
    let mut out: Vec<Vec<char>> = Vec::new();
    let mut cur: Vec<char> = Vec::new();
    let mut i: usize = 0;
    assert(views(out@) + lines_from(s@, 0, cur@) =~= lines(s@));
    while i < s.len()
        invariant
            i <= s.len(),
            views(out@) + lines_from(s@, i as int, cur@) == lines(s@),
        decreases s.len() - i,
    {
        let c = s[i];
        if c == '\n' {
            let ghost before = views(out@);
            let ghost done = cur@;
            if cur.len() > 0 && cur[cur.len() - 1] == '\r' {
                cur.pop();
            }
            assert(cur@ =~= without_cr(done));
            out.push(cur);
            cur = Vec::new();
            assert(views(out@) =~= before + seq![without_cr(done)]);
            assert(views(out@) + lines_from(s@, i + 1, cur@) =~= before + (seq![without_cr(done)]
                + lines_from(s@, i + 1, Seq::empty())));
        } else {
            cur.push(c);
        }
        i = i + 1;
    }
    if cur.len() > 0 {
        let ghost before = views(out@);
        let ghost done = cur@;
        out.push(cur);
        assert(views(out@) =~= before + closed_field(done));
    } else {
        assert(views(out@) + closed_field(cur@) =~= views(out@));
    }
    out
}

/// Whether `pat` stands in `s` at place `i`.
pub open spec fn occurs_at(s: Seq<char>, pat: Seq<char>, i: int) -> bool {
    0 <= i && i + pat.len() <= s.len() && s.subrange(i, i + pat.len()) == pat
}

/// The first place at or behind `i` at which `pat` stands in `s`.
pub open spec fn find_from(s: Seq<char>, pat: Seq<char>, i: int) -> Option<int>
    decreases s.len() - i,
{
    if i < 0 || i + pat.len() > s.len() {
        None
    } else if occurs_at(s, pat, i) {
        Some(i)
    } else if i >= s.len() {
        None
    } else {
        find_from(s, pat, i + 1)
    }
}

/// The first place at which `pat` stands in `s`.
pub open spec fn find(s: Seq<char>, pat: Seq<char>) -> Option<int> {
    find_from(s, pat, 0)
}

pub open spec fn contains(s: Seq<char>, pat: Seq<char>) -> bool {
    find(s, pat) is Some
}

/// Whether `pat` stands in `s` at place `i`.
pub fn matches_at(s: &Vec<char>, pat: &Vec<char>, i: usize) -> (r: bool)
    requires
        i + pat.len() <= s.len(),
    ensures
        r == occurs_at(s@, pat@, i as int),
{
    let mut k: usize = 0;
    while k < pat.len()
        invariant
            k <= pat.len(),
            i + pat.len() <= s.len(),
            s@.subrange(i as int, i + k) == pat@.subrange(0, k as int),
        decreases pat.len() - k,
    {
        if s[i + k] != pat[k] {
            assert(s@.subrange(i as int, i + pat.len())[k as int] != pat@[k as int]);
            return false;
        }
        assert(s@.subrange(i as int, i + k + 1) =~= s@.subrange(i as int, i + k).push(
            s@[i + k],
        ));
        assert(pat@.subrange(0, k + 1) =~= pat@.subrange(0, k as int).push(pat@[k as int]));
        k = k + 1;
    }
    assert(pat@.subrange(0, k as int) =~= pat@);
    true
}

/// The first place at which `pat` stands in `s`.
pub fn find_in(s: &Vec<char>, pat: &Vec<char>) -> (r: Option<usize>)
    ensures
        match r {
            Some(i) => find(s@, pat@) == Some(i as int) && i + pat@.len() <= s@.len(),
            None => find(s@, pat@) is None,
        },
{
    if pat.len() > s.len() {
        return None;
    }
    if pat.len() == 0 {
        assert(s@.subrange(0, 0) =~= pat@);
        return Some(0);
    }
    let mut i: usize = 0;
    while i <= s.len() - pat.len()
        invariant
            i <= s.len(),
            0 < pat.len() <= s.len(),
            find(s@, pat@) == find_from(s@, pat@, i as int),
        decreases s.len() - i,
    {
        if matches_at(s, pat, i) {
            return Some(i);
        }
        i = i + 1;
    }
    None
}

/// The first place at which the text `pat` stands in `s`.
pub fn find_str(s: &Vec<char>, pat: &str) -> (r: Option<usize>)
    ensures
        match r {
            Some(i) => find(s@, pat@) == Some(i as int) && i + pat@.len() <= s@.len(),
            None => find(s@, pat@) is None,
        },
{
    let p = to_chars(pat);
    find_in(s, &p)
}

/// The first place at which the character `c` stands in `s`.
pub fn find_char(s: &Vec<char>, c: char) -> (r: Option<usize>)
    ensures
        match r {
            Some(i) => find(s@, seq![c]) == Some(i as int) && i < s@.len(),
            None => find(s@, seq![c]) is None,
        },
{
    let mut p: Vec<char> = Vec::new();
    p.push(c);
    assert(p@ =~= seq![c]);
    find_in(s, &p)
}

/// The last place at which the character `c` stands in `s`, looking at the places
/// before `end` only.
pub open spec fn rfind_char(s: Seq<char>, c: char, end: int) -> Option<int>
    decreases end,
{
    if end <= 0 || end > s.len() {
        None
    } else if s[end - 1] == c {
        Some(end - 1)
    } else {
        rfind_char(s, c, end - 1)
    }
}

/// The last place at which the character `c` stands in `s`.
pub fn rfind_in(s: &Vec<char>, c: char) -> (r: Option<usize>)
    ensures
        match r {
            Some(i) => rfind_char(s@, c, s@.len() as int) == Some(i as int) && i < s@.len(),
            None => rfind_char(s@, c, s@.len() as int) is None,
        },
{
    let mut end: usize = s.len();
    while end > 0
        invariant
            end <= s.len(),
            rfind_char(s@, c, s@.len() as int) == rfind_char(s@, c, end as int),
        decreases end,
    {
        if s[end - 1] == c {
            return Some(end - 1);
        }
        end = end - 1;
    }
    None
}

/// The number of white space characters at the start of `s`.
pub open spec fn leading_spaces(s: Seq<char>) -> int
    decreases s.len(),
{
    if s.len() > 0 && is_space(s[0]) {
        1 + leading_spaces(s.drop_first())
    } else {
        0
    }
}

/// The number of white space characters at the end of `s`.
pub open spec fn trailing_spaces(s: Seq<char>) -> int
    decreases s.len(),
{
    if s.len() > 0 && is_space(s.last()) {
        1 + trailing_spaces(s.drop_last())
    } else {
        0
    }
}

/// The text without the white space at its start and at its end.
pub open spec fn trimmed(s: Seq<char>) -> Seq<char> {
    let a = leading_spaces(s);
    if a >= s.len() {
        Seq::empty()
    } else {
        s.subrange(a, s.len() - trailing_spaces(s))
    }
}

proof fn lemma_leading_spaces(s: Seq<char>, k: int)
    requires
        0 <= k <= s.len(),
        forall|j: int| 0 <= j < k ==> is_space(#[trigger] s[j]),
        k < s.len() ==> !is_space(s[k]),
    ensures
        leading_spaces(s) == k,
    decreases k,
{
    if k > 0 {
        let t = s.drop_first();
        assert forall|j: int| 0 <= j < k - 1 implies is_space(#[trigger] t[j]) by {
            assert(t[j] == s[j + 1]);
        }
        lemma_leading_spaces(t, k - 1);
    }
}

proof fn lemma_trailing_spaces(s: Seq<char>, k: int)
    requires
        0 <= k <= s.len(),
        forall|j: int| s.len() - k <= j < s.len() ==> is_space(#[trigger] s[j]),
        k < s.len() ==> !is_space(s[s.len() - k - 1]),
    ensures
        trailing_spaces(s) == k,
    decreases k,
{
    if k > 0 {
        let t = s.drop_last();
        assert forall|j: int| t.len() - (k - 1) <= j < t.len() implies is_space(#[trigger] t[j]) by {
            assert(t[j] == s[j]);
        }
        lemma_trailing_spaces(t, k - 1);
    }
}

/// A copy of the text without the white space at its start and at its end.
pub fn trim(s: &Vec<char>) -> (r: Vec<char>)
    ensures
        r@ == trimmed(s@),
{
    let mut a: usize = 0;
    while a < s.len() && char_is_space(s[a])
        invariant
            a <= s.len(),
            forall|j: int| 0 <= j < a ==> is_space(#[trigger] s@[j]),
        decreases s.len() - a,
    {
        a = a + 1;
    }
    proof {
        lemma_leading_spaces(s@, a as int);
    }
    if a >= s.len() {
        return Vec::new();
    }
    let mut b: usize = s.len();
    while b > a + 1 && char_is_space(s[b - 1])
        invariant
            a < b <= s.len(),
            !is_space(s@[a as int]),
            forall|j: int| b <= j < s@.len() ==> is_space(#[trigger] s@[j]),
        decreases b,
    {
        b = b - 1;
    }
    proof {
        lemma_trailing_spaces(s@, s@.len() - b);
    }
    slice_chars(s, a, b)
}


/// The parts of `s` from place `i` on that `sep` cuts it into, where `cur` holds what
/// was read of the part that stands before `i`.
pub open spec fn split_from(s: Seq<char>, sep: char, i: int, cur: Seq<char>) -> Seq<Seq<char>>
    decreases s.len() - i,
{
    if i < 0 || i >= s.len() {
        seq![cur]
    } else if s[i] == sep {
        seq![cur] + split_from(s, sep, i + 1, Seq::empty())
    } else {
        split_from(s, sep, i + 1, cur.push(s[i]))
    }
}

/// The parts that the character `sep` cuts `s` into: one more than `sep` stands in `s`.
pub open spec fn split(s: Seq<char>, sep: char) -> Seq<Seq<char>> {
    split_from(s, sep, 0, Seq::empty())
}

/// Cuts a text at each `sep`.
pub fn split_at_char(s: &Vec<char>, sep: char) -> (r: Vec<Vec<char>>)
    ensures
        views(r@) == split(s@, sep),
        r@.len() >= 1,
{
    let mut out: Vec<Vec<char>> = Vec::new();
    let mut cur: Vec<char> = Vec::new();
    let mut i: usize = 0;
    assert(views(out@) + split_from(s@, sep, 0, cur@) =~= split(s@, sep));
    while i < s.len()
        invariant
            i <= s.len(),
            views(out@) + split_from(s@, sep, i as int, cur@) == split(s@, sep),
        decreases s.len() - i,
    {
        let c = s[i];
        if c == sep {
            let ghost before = views(out@);
            let ghost done = cur@;
            out.push(cur);
            cur = Vec::new();
            assert(views(out@) =~= before + seq![done]);
            assert(views(out@) + split_from(s@, sep, i + 1, cur@) =~= before + (seq![done]
                + split_from(s@, sep, i + 1, Seq::empty())));
        } else {
            cur.push(c);
        }
        i = i + 1;
    }
    let ghost before = views(out@);
    let ghost done = cur@;
    out.push(cur);
    assert(views(out@) =~= before + seq![done]);
    out
}

/// The value of a hexadecimal digit, written with a capital or a small letter.
pub open spec fn hex_digit_value(c: char) -> Option<nat> {
    if '0' <= c <= '9' {
        Some((c as u32 - '0' as u32) as nat)
    } else if 'a' <= c <= 'f' {
        Some((c as u32 - 'a' as u32 + 10) as nat)
    } else if 'A' <= c <= 'F' {
        Some((c as u32 - 'A' as u32 + 10) as nat)
    } else {
        None
    }
}

pub open spec fn all_hex_digits(s: Seq<char>) -> bool {
    forall|i: int| 0 <= i < s.len() ==> hex_digit_value(#[trigger] s[i]) is Some
}

/// The number that a run of hexadecimal digits writes.
pub open spec fn hex_value(s: Seq<char>) -> nat
    decreases s.len(),
{
    if s.len() == 0 {
        0
    } else {
        hex_value(s.drop_last()) * 16 + match hex_digit_value(s.last()) {
            Some(d) => d,
            None => 0,
        }
    }
}

/// The value of the hexadecimal digit `c`, if it is one.
pub fn hex_digit_of(c: char) -> (r: Option<u32>)
    ensures
        match r {
            Some(d) => hex_digit_value(c) == Some(d as nat) && d < 16,
            None => hex_digit_value(c) is None,
        },
{
    if '0' <= c && c <= '9' {
        Some(c as u32 - '0' as u32)
    } else if 'a' <= c && c <= 'f' {
        Some(c as u32 - 'a' as u32 + 10)
    } else if 'A' <= c && c <= 'F' {
        Some(c as u32 - 'A' as u32 + 10)
    } else {
        None
    }
}

/// The number that `s` writes in hexadecimal, where `s` is up to four digits and nothing
/// else.
pub open spec fn hex_group(s: Seq<char>) -> Option<u16> {
    if 1 <= s.len() <= 4 && all_hex_digits(s) {
        Some(hex_value(s) as u16)
    } else {
        None
    }
}

/// Reads up to four hexadecimal digits.
pub fn parse_hex_group(s: &Vec<char>) -> (r: Option<u16>)
    ensures
        r == hex_group(s@),
{
    if s.len() < 1 || s.len() > 4 {
        return None;
    }
    let mut acc: u32 = 0;
    let mut i: usize = 0;
    assert(s@.subrange(0, 0) =~= Seq::<char>::empty());
    while i < s.len()
        invariant
            i <= s.len() <= 4,
            all_hex_digits(s@.subrange(0, i as int)),
            acc == hex_value(s@.subrange(0, i as int)),
            i == 0 ==> acc == 0,
            i == 1 ==> acc < 16,
            i == 2 ==> acc < 256,
            i == 3 ==> acc < 4096,
            i == 4 ==> acc < 65536,
        decreases s.len() - i,
    {
        let ghost next = s@.subrange(0, i + 1);
        assert(next.drop_last() =~= s@.subrange(0, i as int));
        assert(next.last() == s@[i as int]);
        match hex_digit_of(s[i]) {
            Some(d) => {
                acc = acc * 16 + d;
                assert forall|k: int| 0 <= k < next.len() implies hex_digit_value(
                    #[trigger] next[k],
                ) is Some by {
                    if k < i {
                        assert(s@.subrange(0, i as int)[k] == next[k]);
                    }
                }
            },
            None => {
                return None;
            },
        }
        i = i + 1;
    }
    assert(s@.subrange(0, i as int) =~= s@);
    Some(acc as u16)
}


/// A run of characters without `sep` goes into the part that is being read.
pub proof fn lemma_split_run(s: Seq<char>, sep: char, i: int, k: int, cur: Seq<char>)
    requires
        0 <= i,
        0 <= k,
        i + k <= s.len(),
        forall|j: int| i <= j < i + k ==> s[j] != sep,
    ensures
        split_from(s, sep, i, cur) == split_from(s, sep, i + k, cur + s.subrange(i, i + k)),
    decreases k,
{
    if k > 0 {
        lemma_split_run(s, sep, i + 1, k - 1, cur.push(s[i]));
        assert(cur.push(s[i]) + s.subrange(i + 1, i + k) =~= cur + s.subrange(i, i + k));
    } else {
        assert(cur + s.subrange(i, i) =~= cur);
    }
}

/// A run of characters without `sep` that ends before a `sep` is one part.
pub proof fn lemma_split_part(s: Seq<char>, sep: char, i: int, k: int)
    requires
        0 <= i,
        0 <= k,
        i + k < s.len(),
        forall|j: int| i <= j < i + k ==> s[j] != sep,
        s[i + k] == sep,
    ensures
        split_from(s, sep, i, Seq::empty()) == seq![s.subrange(i, i + k)] + split_from(
            s,
            sep,
            i + k + 1,
            Seq::empty(),
        ),
{
    lemma_split_run(s, sep, i, k, Seq::empty());
    assert(Seq::<char>::empty() + s.subrange(i, i + k) =~= s.subrange(i, i + k));
}

/// A run of characters without `sep` that ends the text is the last part.
pub proof fn lemma_split_last_part(s: Seq<char>, sep: char, i: int)
    requires
        0 <= i <= s.len(),
        forall|j: int| i <= j < s.len() ==> s[j] != sep,
    ensures
        split_from(s, sep, i, Seq::empty()) == seq![s.subrange(i, s.len() as int)],
{
    lemma_split_run(s, sep, i, s.len() - i, Seq::empty());
    assert(Seq::<char>::empty() + s.subrange(i, s.len() as int) =~= s.subrange(
        i,
        s.len() as int,
    ));
}

/// The last `c` of a text is where a `c` stands behind which no other stands.
pub proof fn lemma_rfind_last(s: Seq<char>, c: char, k: int, end: int)
    requires
        0 <= k < end <= s.len(),
        s[k] == c,
        forall|j: int| k < j < end ==> s[j] != c,
    ensures
        rfind_char(s, c, end) == Some(k),
    decreases end - k,
{
    if end - 1 > k {
        lemma_rfind_last(s, c, k, end - 1);
    }
}

/// The decimal writing of a number below 1000 has as many digits as the number needs,
/// and that of a number from 10 on does not start with a zero.
pub proof fn lemma_decimal_text_shape(n: nat)
    ensures
        n < 10 ==> decimal_text(n).len() == 1,
        10 <= n < 100 ==> decimal_text(n).len() == 2,
        100 <= n < 1000 ==> decimal_text(n).len() == 3,
        n >= 10 ==> decimal_text(n)[0] != '0',
        n < 10 ==> decimal_text(n)[0] == digit_char(n),
    decreases n,
{
    if n >= 10 {
        lemma_decimal_text_shape(n / 10);
        lemma_decimal_text_digits(n / 10);
        assert(decimal_text(n)[0] == decimal_text(n / 10)[0]);
    }
}


/// No character of the text is white space.
pub open spec fn no_spaces(s: Seq<char>) -> bool {
    forall|i: int| 0 <= i < s.len() ==> !is_space(#[trigger] s[i])
}

/// The words with one blank between each two of them.
pub open spec fn joined(words: Seq<Seq<char>>) -> Seq<char>
    decreases words.len(),
{
    if words.len() == 0 {
        Seq::empty()
    } else if words.len() == 1 {
        words[0]
    } else {
        joined(words.drop_last()) + seq![' '] + words.last()
    }
}

/// A run of characters that are no white space goes into the field that is being read.
pub proof fn lemma_fields_run(s: Seq<char>, i: int, k: int, cur: Seq<char>)
    requires
        0 <= i,
        0 <= k,
        i + k <= s.len(),
        forall|j: int| i <= j < i + k ==> !is_space(s[j]),
    ensures
        fields_from(s, i, cur) == fields_from(s, i + k, cur + s.subrange(i, i + k)),
    decreases k,
{
    if k > 0 {
        lemma_fields_run(s, i + 1, k - 1, cur.push(s[i]));
        assert(cur.push(s[i]) + s.subrange(i + 1, i + k) =~= cur + s.subrange(i, i + k));
    } else {
        assert(cur + s.subrange(i, i) =~= cur);
    }
}

/// A word behind a blank at the end of a text is one more field.
pub proof fn lemma_fields_append(x: Seq<char>, y: Seq<char>, i: int, cur: Seq<char>)
    requires
        0 <= i <= x.len(),
        y.len() > 0,
        no_spaces(y),
    ensures
        fields_from(x + seq![' '] + y, i, cur) == fields_from(x, i, cur) + seq![y],
    decreases x.len() - i,
{
    let s = x + seq![' '] + y;
    if i < x.len() {
        assert(s[i] == x[i]);
        if is_space(x[i]) {
            lemma_fields_append(x, y, i + 1, Seq::empty());
            assert(closed_field(cur) + (fields_from(x, i + 1, Seq::empty()) + seq![y])
                =~= closed_field(cur) + fields_from(x, i + 1, Seq::empty()) + seq![y]);
        } else {
            lemma_fields_append(x, y, i + 1, cur.push(x[i]));
        }
    } else {
        assert(s[i] == ' ');
        assert(is_space(' '));
        assert forall|j: int| i + 1 <= j < i + 1 + y.len() implies !is_space(s[j]) by {
            assert(s[j] == y[j - i - 1]);
        }
        lemma_fields_run(s, i + 1, y.len() as int, Seq::empty());
        assert(s.subrange(i + 1, i + 1 + y.len()) =~= y);
        assert(Seq::<char>::empty() + y =~= y);
        assert(fields_from(s, i + 1 + y.len(), y) == closed_field(y));
        assert(fields_from(x, i, cur) == closed_field(cur));
    }
}

/// Words that hold something and no white space, written with one blank between them,
/// are read back as the fields of what was written.
pub proof fn lemma_fields_of_joined(words: Seq<Seq<char>>)
    requires
        forall|i: int| 0 <= i < words.len() ==> (#[trigger] words[i]).len() > 0 && no_spaces(words[i]),
    ensures
        fields(joined(words)) == words,
    decreases words.len(),
{
    if words.len() == 0 {
        assert(fields(joined(words)) =~= words);
    } else if words.len() == 1 {
        let w = words[0];
        lemma_fields_run(w, 0, w.len() as int, Seq::empty());
        assert(w.subrange(0, w.len() as int) =~= w);
        assert(Seq::<char>::empty() + w =~= w);
        assert(fields(joined(words)) =~= words);
    } else {
        let front = words.drop_last();
        assert forall|i: int| 0 <= i < front.len() implies (#[trigger] front[i]).len() > 0
            && no_spaces(front[i]) by {
            assert(front[i] == words[i]);
        }
        lemma_fields_of_joined(front);
        lemma_fields_append(joined(front), words.last(), 0, Seq::empty());
        assert(front + seq![words.last()] =~= words);
    }
}

/// Where `pat` stands at place `k` of a text and at no place before, it is found there.
pub proof fn lemma_find_first(s: Seq<char>, pat: Seq<char>, k: int, i: int)
    requires
        0 <= i <= k,
        occurs_at(s, pat, k),
        forall|j: int| i <= j < k ==> !occurs_at(s, pat, j),
    ensures
        find_from(s, pat, i) == Some(k),
    decreases k - i,
{
    if i < k {
        lemma_find_first(s, pat, k, i + 1);
    }
}

/// Where `pat` stands at no place of a text, it is not found.
pub proof fn lemma_find_none(s: Seq<char>, pat: Seq<char>, i: int)
    requires
        0 <= i,
        forall|j: int| i <= j ==> !occurs_at(s, pat, j),
    ensures
        find_from(s, pat, i) is None,
    decreases s.len() - i,
{
    if i + pat.len() <= s.len() && i < s.len() {
        lemma_find_none(s, pat, i + 1);
    }
}

/// A text that starts and ends with something other than white space is its own
/// trimmed form.
pub proof fn lemma_trimmed_unchanged(s: Seq<char>)
    requires
        s.len() > 0,
        !is_space(s[0]),
        !is_space(s.last()),
    ensures
        trimmed(s) == s,
{
    assert(s.subrange(0, s.len() as int) =~= s);
}


/// A part without `sep` behind a `sep` at the end of a text is one more part.
pub proof fn lemma_split_append(x: Seq<char>, y: Seq<char>, sep: char, i: int, cur: Seq<char>)
    requires
        0 <= i <= x.len(),
        forall|j: int| 0 <= j < y.len() ==> y[j] != sep,
    ensures
        split_from(x + seq![sep] + y, sep, i, cur) == split_from(x, sep, i, cur) + seq![y],
    decreases x.len() - i,
{
    let s = x + seq![sep] + y;
    if i < x.len() {
        assert(s[i] == x[i]);
        if x[i] == sep {
            lemma_split_append(x, y, sep, i + 1, Seq::empty());
            assert(seq![cur] + (split_from(x, sep, i + 1, Seq::empty()) + seq![y]) =~= seq![cur]
                + split_from(x, sep, i + 1, Seq::empty()) + seq![y]);
        } else {
            lemma_split_append(x, y, sep, i + 1, cur.push(x[i]));
        }
    } else {
        assert(s[i] == sep);
        assert forall|j: int| i + 1 <= j < s.len() implies s[j] != sep by {
            assert(s[j] == y[j - i - 1]);
        }
        lemma_split_last_part(s, sep, i + 1);
        assert(s.subrange(i + 1, s.len() as int) =~= y);
    }
}

/// A text without `sep` is its only part.
pub proof fn lemma_split_one(s: Seq<char>, sep: char)
    requires
        forall|j: int| 0 <= j < s.len() ==> s[j] != sep,
    ensures
        split(s, sep) == seq![s],
{
    lemma_split_last_part(s, sep, 0);
    assert(s.subrange(0, s.len() as int) =~= s);
}

/// The hexadecimal writing of a number holds digits only, at least one, and writes the
/// number.
pub proof fn lemma_hex_text_digits(n: nat, upper: bool)
    ensures
        hex_text(n, upper).len() >= 1,
        all_hex_digits(hex_text(n, upper)),
        hex_value(hex_text(n, upper)) == n,
        n < 16 ==> hex_text(n, upper).len() == 1,
        16 <= n < 256 ==> hex_text(n, upper).len() == 2,
        256 <= n < 4096 ==> hex_text(n, upper).len() == 3,
        4096 <= n < 65536 ==> hex_text(n, upper).len() == 4,
    decreases n,
{
    let t = hex_text(n, upper);
    if n < 16 {
        assert(t.drop_last() =~= Seq::<char>::empty());
        assert(hex_value(t.drop_last()) == 0);
        assert(hex_digit_value(hex_digit_char(n, upper)) == Some(n));
    } else {
        lemma_hex_text_digits(n / 16, upper);
        assert(t.drop_last() =~= hex_text(n / 16, upper));
        assert(hex_digit_value(hex_digit_char(n % 16, upper)) == Some(n % 16));
        assert forall|i: int| 0 <= i < t.len() implies hex_digit_value(#[trigger] t[i]) is Some by {
            if i < t.len() - 1 {
                assert(t[i] == hex_text(n / 16, upper)[i]);
            }
        }
    }
}

/// A group of sixteen bits, written in hexadecimal, reads back as the group.
pub proof fn lemma_hex_group_round_trip(g: u16, upper: bool)
    ensures
        hex_group(hex_text(g as nat, upper)) == Some(g),
{
    lemma_hex_text_digits(g as nat, upper);
}

} // verus!

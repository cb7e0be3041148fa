//! Text as the rules see it: sequences of `char`, built up and compared
//! without reaching for formatting machinery.

use vstd::prelude::*;

verus! {

/// The characters of a string slice, in order.
pub fn chars_of(s: &str) -> (res: Vec<char>)
    ensures
        res@ == s@,
{
    let mut res: Vec<char> = Vec::new();
    for c in it: s.chars()
        invariant
            res@ == it.seq().take(it.index() as int),
            it.seq() == s@,
    {
        res.push(c);
    }
    res
}

} // verus!

verus! {

/// `std`'s `String: FromIterator<&char>`: the string holding exactly these
/// characters, in order.
#[verifier::external_body]
pub fn string_of(chars: &[char]) -> (res: String)
    ensures
        res@ == chars@,
{
    chars.iter().collect()
}

/// A string slice as an owned string.
pub fn owned(s: &str) -> (res: String)
    ensures
        res@ == s@,
{
    s.to_owned()
}

/// The decimal digit for `d`.
pub open spec fn digit_char(d: nat) -> char {
    if d == 0 { '0' }
    else if d == 1 { '1' }
    else if d == 2 { '2' }
    else if d == 3 { '3' }
    else if d == 4 { '4' }
    else if d == 5 { '5' }
    else if d == 6 { '6' }
    else if d == 7 { '7' }
    else if d == 8 { '8' }
    else { '9' }
}

/// The decimal spelling of a number, without leading zeros.
pub open spec fn decimal(n: nat) -> Seq<char>
    decreases n,
{
    if n < 10 {
        seq![digit_char(n)]
    } else {
        decimal(n / 10).push(digit_char(n % 10))
    }
}

fn digit(d: usize) -> (c: char)
    requires
        d < 10,
    ensures
        c == digit_char(d as nat),
{
    if d == 0 { '0' }
    else if d == 1 { '1' }
    else if d == 2 { '2' }
    else if d == 3 { '3' }
    else if d == 4 { '4' }
    else if d == 5 { '5' }
    else if d == 6 { '6' }
    else if d == 7 { '7' }
    else if d == 8 { '8' }
    else { '9' }
}

fn decimal_chars(n: usize) -> (res: Vec<char>)
    ensures
        res@ == decimal(n as nat),
    decreases n,
{
    if n < 10 {
        let mut res = Vec::new();
        res.push(digit(n));
        res
    } else {
        let mut res = decimal_chars(n / 10);
        res.push(digit(n % 10));
        res
    }
}

/// A number spelled in decimal, as `format!("{n}")` prints it.
pub fn decimal_string(n: usize) -> (res: String)
    ensures
        res@ == decimal(n as nat),
{
    let chars = decimal_chars(n);
    string_of(chars.as_slice())
}

/// `a` followed by `b`.
pub fn concat(a: &str, b: &str) -> (res: String)
    ensures
        res@ == a@ + b@,
{
    let mut res = a.to_owned();
    res.append(b);
    res
}

} // verus!

verus! {

/// What `char::is_uppercase` answers for a character beyond ASCII: whether
/// it has the Unicode `Uppercase` property, by the Unicode tables of the
/// toolchain the crate is built with.
pub uninterp spec fn unicode_uppercase(c: char) -> bool;

/// What `char::is_lowercase` answers for a character beyond ASCII: whether
/// it has the Unicode `Lowercase` property, by the toolchain's tables.
pub uninterp spec fn unicode_lowercase(c: char) -> bool;

/// What `char::is_numeric` answers for a character beyond ASCII: whether it
/// is in one of the Unicode number categories, by the toolchain's tables.
pub uninterp spec fn unicode_numeric(c: char) -> bool;

/// What `char::to_lowercase` yields for a character beyond ASCII: its
/// lowercase mapping, which may be more than one character, by the
/// toolchain's tables.
pub uninterp spec fn unicode_lowercase_mapping(c: char) -> Seq<char>;

pub open spec fn is_ascii(c: char) -> bool {
    (c as int) < 128
}

pub open spec fn is_ascii_upper(c: char) -> bool {
    'A' <= c && c <= 'Z'
}

pub open spec fn is_ascii_lower(c: char) -> bool {
    'a' <= c && c <= 'z'
}

pub open spec fn is_ascii_digit(c: char) -> bool {
    '0' <= c && c <= '9'
}

/// An ASCII letter lowered; every other character as it is.
pub open spec fn ascii_lower_char(c: char) -> char {
    if is_ascii_upper(c) {
        ((c as int) + 32) as char
    } else {
        c
    }
}

/// Whether `char::is_uppercase` holds: exactly `A`..=`Z` among ASCII
/// characters, the Unicode property beyond.
pub open spec fn char_uppercase(c: char) -> bool {
    if is_ascii(c) {
        is_ascii_upper(c)
    } else {
        unicode_uppercase(c)
    }
}

/// Whether `char::is_lowercase` holds: exactly `a`..=`z` among ASCII
/// characters, the Unicode property beyond.
pub open spec fn char_lowercase(c: char) -> bool {
    if is_ascii(c) {
        is_ascii_lower(c)
    } else {
        unicode_lowercase(c)
    }
}

/// Whether `char::is_numeric` holds: exactly `0`..=`9` among ASCII
/// characters, the Unicode categories beyond.
pub open spec fn char_numeric(c: char) -> bool {
    if is_ascii(c) {
        is_ascii_digit(c)
    } else {
        unicode_numeric(c)
    }
}

/// What `char::to_lowercase` yields: an ASCII character lowered, the Unicode
/// mapping beyond.
pub open spec fn char_lowercase_mapping(c: char) -> Seq<char> {
    if is_ascii(c) {
        seq![ascii_lower_char(c)]
    } else {
        unicode_lowercase_mapping(c)
    }
}

/// `char::is_uppercase`: `A`..=`Z` among ASCII characters, and the named
/// Unicode property beyond.
#[verifier::external_body]
pub fn char_is_uppercase(c: char) -> (res: bool)
    ensures
        is_ascii(c) ==> res == is_ascii_upper(c),
        !is_ascii(c) ==> res == unicode_uppercase(c),
{
    c.is_uppercase()
}

/// `char::is_lowercase`: `a`..=`z` among ASCII characters, and the named
/// Unicode property beyond.
#[verifier::external_body]
pub fn char_is_lowercase(c: char) -> (res: bool)
    ensures
        is_ascii(c) ==> res == is_ascii_lower(c),
        !is_ascii(c) ==> res == unicode_lowercase(c),
{
    c.is_lowercase()
}

/// `char::is_numeric`: `0`..=`9` among ASCII characters, and the named
/// Unicode categories beyond.
#[verifier::external_body]
pub fn char_is_numeric(c: char) -> (res: bool)
    ensures
        is_ascii(c) ==> res == is_ascii_digit(c),
        !is_ascii(c) ==> res == unicode_numeric(c),
{
    c.is_numeric()
}

/// `char::to_lowercase`, collected: an ASCII letter maps to its lowercase
/// letter and every other ASCII character to itself; beyond ASCII, the named
/// Unicode mapping.
#[verifier::external_body]
pub fn char_to_lowercase(c: char) -> (res: Vec<char>)
    ensures
        is_ascii(c) ==> res@ == seq![ascii_lower_char(c)],
        !is_ascii(c) ==> res@ == unicode_lowercase_mapping(c),
{
    c.to_lowercase().collect()
}

} // verus!

verus! {

/// Whether two string slices hold the same characters.
pub fn same_text(a: &str, b: &str) -> (res: bool)
    ensures
        res == (a@ == b@),
{
    let x = chars_of(a);
    let y = chars_of(b);
    same_chars(&x, &y)
}

/// Whether two character vectors are equal.
pub fn same_chars(x: &Vec<char>, y: &Vec<char>) -> (res: bool)
    ensures
        res == (x@ == y@),
{
    if x.len() != y.len() {
        return false;
    }
    let mut i: usize = 0;
    while i < x.len()
        invariant
            x.len() == y.len(),
            i <= x.len(),
            forall|j: int| 0 <= j < i ==> x@[j] == y@[j],
        decreases x.len() - i,
    {
        if x[i] != y[i] {
            return false;
        }
        i += 1;
    }
    assert(x@ =~= y@);
    true
}

} // verus!

verus! {

/// Parts joined with `/` between them.
pub open spec fn join_slash(parts: Seq<Seq<char>>) -> Seq<char>
    decreases parts.len(),
{
    join_with(parts, seq!['/'])
}

/// Parts joined with `sep` between them.
pub open spec fn join_with(parts: Seq<Seq<char>>, sep: Seq<char>) -> Seq<char>
    decreases parts.len(),
{
    if parts.len() == 0 {
        Seq::empty()
    } else if parts.len() == 1 {
        parts[0]
    } else {
        join_with(parts.drop_last(), sep) + sep + parts.last()
    }
}

/// The views of a list of strings.
pub open spec fn views(items: Seq<String>) -> Seq<Seq<char>> {
    items.map_values(|s: String| s@)
}

/// Strings joined with `sep` between them, as `[..].join(sep)` does.
pub fn join(items: &[String], sep: &str) -> (res: String)
    ensures
        res@ == join_with(views(items@), sep@),
{
    let res = join_first(items, items.len(), sep);
    assert(items@.take(items.len() as int) == items@);
    res
}

/// The first `n` strings joined with `sep` between them.
pub fn join_first(items: &[String], n: usize, sep: &str) -> (res: String)
    requires
        n <= items.len(),
    ensures
        res@ == join_with(views(items@.take(n as int)), sep@),
{
    let mut res = String::new();
    let mut i: usize = 0;
    while i < n
        invariant
            n <= items.len(),
            i <= n,
            res@ == join_with(views(items@.take(i as int)), sep@),
        decreases n - i,
    {
        let ghost before = views(items@.take(i as int));
        let ghost after = views(items@.take(i + 1));
        assert(after.drop_last() =~= before);
        assert(after.last() == items@[i as int]@);
        if i > 0 {
            res.append(sep);
        } else {
            assert(res@ =~= Seq::<char>::empty());
        }
        res.append(items[i].as_str());
        i += 1;
        assert(res@ =~= join_with(views(items@.take(i as int)), sep@));
    }
    res
}

/// Whether `prefix` begins `s`.
pub open spec fn starts_with(s: Seq<char>, prefix: Seq<char>) -> bool {
    prefix.len() <= s.len() && s.take(prefix.len() as int) == prefix
}

/// Whether `s` begins with `prefix`.
pub fn has_prefix(s: &Vec<char>, prefix: &Vec<char>) -> (res: bool)
    ensures
        res == starts_with(s@, prefix@),
{
    if prefix.len() > s.len() {
        return false;
    }
    let mut i: usize = 0;
    while i < prefix.len()
        invariant
            prefix.len() <= s.len(),
            i <= prefix.len(),
            forall|j: int| 0 <= j < i ==> s@[j] == prefix@[j],
        decreases prefix.len() - i,
    {
        if s[i] != prefix[i] {
            assert(s@.take(prefix.len() as int)[i as int] != prefix@[i as int]);
            return false;
        }
        i += 1;
    }
    assert(s@.take(prefix.len() as int) =~= prefix@);
    true
}

/// A copy of a list of strings.
pub fn copy_strings(items: &Vec<String>) -> (res: Vec<String>)
    ensures
        views(res@) == views(items@),
{
    let mut res: Vec<String> = Vec::new();
    let mut i: usize = 0;
    while i < items.len()
        invariant
            i <= items.len(),
            res.len() == i,
            forall|j: int| 0 <= j < i ==> #[trigger] res@[j]@ == items@[j]@,
        decreases items.len() - i,
    {
        res.push(items[i].clone());
        i += 1;
    }
    assert(views(res@) =~= views(items@));
    res
}

} // verus!

verus! {

/// A line with its carriage return dropped, when it ended in `\r\n`.
pub open spec fn strip_cr(line: Seq<char>) -> Seq<char> {
    if line.len() > 0 && line.last() == '\r' {
        line.drop_last()
    } else {
        line
    }
}

/// After the first `n` characters: the lines completed so far, and the line
/// in progress.
pub open spec fn scan_lines(s: Seq<char>, n: nat) -> (Seq<Seq<char>>, Seq<char>)
    decreases n,
{
    if n == 0 || n > s.len() {
        (Seq::empty(), Seq::empty())
    } else {
        let (done, current) = scan_lines(s, (n - 1) as nat);
        if s[n - 1] == '\n' {
            (done.push(strip_cr(current)), Seq::empty())
        } else {
            (done, current.push(s[n - 1]))
        }
    }
}

/// The lines of a text, as `str::lines` yields them: split at `\n` or
/// `\r\n`, with the final line ending optional.
pub open spec fn lines_of(s: Seq<char>) -> Seq<Seq<char>> {
    let (done, current) = scan_lines(s, s.len());
    if current.len() > 0 {
        done.push(current)
    } else {
        done
    }
}

/// The views of a list of character vectors.
pub open spec fn char_views(items: Seq<Vec<char>>) -> Seq<Seq<char>> {
    items.map_values(|v: Vec<char>| v@)
}

/// The lines of a text, as `str::lines` yields them.
pub fn lines(s: &Vec<char>) -> (res: Vec<Vec<char>>)
    ensures
        char_views(res@) == lines_of(s@),
{
    let mut done: Vec<Vec<char>> = Vec::new();
    let mut current: Vec<char> = Vec::new();
    let mut i: usize = 0;
    while i < s.len()
        invariant
            i <= s.len(),
            (char_views(done@), current@) == scan_lines(s@, i as nat),
        decreases s.len() - i,
    {
        if s[i] == '\n' {
            if current.len() > 0 && current[current.len() - 1] == '\r' {
                current.pop();
            }
            done.push(current);
            assert(char_views(done@) =~= scan_lines(s@, (i + 1) as nat).0);
            current = Vec::new();
        } else {
            current.push(s[i]);
        }
        i += 1;
    }
    if current.len() > 0 {
        done.push(current);
    }
    assert(char_views(done@) =~= lines_of(s@));
    done
}

/// How many bytes `c` takes in UTF-8, as `char::len_utf8` gives it.
pub open spec fn utf8_width(c: char) -> nat {
    if (c as u32) < 0x80 {
        1
    } else if (c as u32) < 0x800 {
        2
    } else if (c as u32) < 0x10000 {
        3
    } else {
        4
    }
}

/// How many bytes a text takes in UTF-8.
pub open spec fn utf8_len(s: Seq<char>) -> nat
    decreases s.len(),
{
    if s.len() == 0 {
        0
    } else {
        utf8_len(s.drop_last()) + utf8_width(s.last())
    }
}

pub fn char_utf8_width(c: char) -> (res: usize)
    ensures
        res == utf8_width(c),
{
    let code = c as u32;
    if code < 0x80 {
        1
    } else if code < 0x800 {
        2
    } else if code < 0x10000 {
        3
    } else {
        4
    }
}

/// The first position of `": "` in a text.
pub open spec fn first_colon_space(s: Seq<char>) -> Option<int> {
    first_colon_space_before(s, s.len() as int)
}

/// The first position below `n` where `": "` starts.
pub open spec fn first_colon_space_before(s: Seq<char>, n: int) -> Option<int>
    decreases n,
{
    if n <= 0 {
        None
    } else {
        match first_colon_space_before(s, n - 1) {
            Some(k) => Some(k),
            None => if n < s.len() && s[n - 1] == ':' && s[n] == ' ' {
                Some(n - 1)
            } else {
                None
            },
        }
    }
}

/// `n` spaces.
pub open spec fn spaces(n: nat) -> Seq<char> {
    Seq::new(n, |i: int| ' ')
}

/// `n` spaces, as a string.
pub fn space_string(n: usize) -> (res: String)
    ensures
        res@ == spaces(n as nat),
{
    let mut v: Vec<char> = Vec::new();
    let mut i: usize = 0;
    while i < n
        invariant
            i <= n,
            v@ == spaces(i as nat),
        decreases n - i,
    {
        v.push(' ');
        i += 1;
        assert(v@ =~= spaces(i as nat));
    }
    string_of(v.as_slice())
}

} // verus!

verus! {

/// The parts, one after another.
pub open spec fn concat_all(parts: Seq<Seq<char>>) -> Seq<char>
    decreases parts.len(),
{
    if parts.len() == 0 {
        Seq::empty()
    } else {
        concat_all(parts.drop_last()) + parts.last()
    }
}

pub proof fn lemma_concat_all_step(parts: Seq<Seq<char>>, k: int)
    requires
        0 <= k < parts.len(),
    ensures
        concat_all(parts.take(k + 1)) == concat_all(parts.take(k)) + parts[k],
{
    assert(parts.take(k + 1).drop_last() == parts.take(k));
}

} // verus!

verus! {

/// Whether `pat` occurs in `s` starting at `k`.
pub open spec fn occurs_at(s: Seq<char>, pat: Seq<char>, k: int) -> bool {
    0 <= k && k + pat.len() <= s.len() && s.subrange(k, k + pat.len()) == pat
}

/// Whether `pat` occurs anywhere in `s`.
pub open spec fn contains_seq(s: Seq<char>, pat: Seq<char>) -> bool {
    exists|k: int| occurs_at(s, pat, k)
}

/// Whether `pat` occurs anywhere in `s`, as `str::contains` answers.
pub fn contains_chars(s: &Vec<char>, pat: &Vec<char>) -> (res: bool)
    ensures
        res == contains_seq(s@, pat@),
{
    if pat.len() > s.len() {
        assert forall|k: int| !occurs_at(s@, pat@, k) by {}
        return false;
    }
    let mut k: usize = 0;
    while k <= s.len() - pat.len()
        invariant
            pat.len() <= s.len(),
            k <= s.len() - pat.len() + 1,
            forall|m: int| 0 <= m < k ==> !occurs_at(s@, pat@, m),
        decreases s.len() - pat.len() + 1 - k,
    {
        let mut j: usize = 0;
        let mut same = true;
        while j < pat.len()
            invariant
                pat.len() <= s.len(),
                k + pat.len() <= s.len(),
                j <= pat.len(),
                same == (forall|m: int| 0 <= m < j ==> s@[k + m] == pat@[m]),
            decreases pat.len() - j,
        {
            if s[k + j] != pat[j] {
                same = false;
            }
            j += 1;
        }
        if same {
            assert(s@.subrange(k as int, k + pat.len()) =~= pat@);
            assert(occurs_at(s@, pat@, k as int));
            return true;
        }
        assert(!occurs_at(s@, pat@, k as int)) by {
            if occurs_at(s@, pat@, k as int) {
                let m = choose|m: int| 0 <= m < pat.len() && s@[k + m] != pat@[m];
                assert(s@.subrange(k as int, k + pat.len())[m] == s@[k + m]);
            }
        }
        k += 1;
    }
    assert forall|m: int| !occurs_at(s@, pat@, m) by {
        if m >= k {
            assert(m + pat.len() > s.len());
        }
    }
    false
}

/// Whether `c` has the Unicode `White_Space` property, which is what
/// `char::is_whitespace` and `str::trim` go by.
pub open spec fn unicode_whitespace(c: char) -> bool {
    let u = c as u32;
    ||| 0x09 <= u <= 0x0D
    ||| u == 0x20
    ||| u == 0x85
    ||| u == 0xA0
    ||| u == 0x1680
    ||| 0x2000 <= u <= 0x200A
    ||| u == 0x2028
    ||| u == 0x2029
    ||| u == 0x202F
    ||| u == 0x205F
    ||| u == 0x3000
}

pub fn is_whitespace(c: char) -> (res: bool)
    ensures
        res == unicode_whitespace(c),
{
    let u = c as u32;
    (0x09 <= u && u <= 0x0D) || u == 0x20 || u == 0x85 || u == 0xA0 || u == 0x1680 || (0x2000 <= u
        && u <= 0x200A) || u == 0x2028 || u == 0x2029 || u == 0x202F || u == 0x205F || u == 0x3000
}

/// Whether a line is all whitespace, so that `trim` leaves nothing of it.
pub open spec fn blank_line(line: Seq<char>) -> bool {
    forall|k: int| 0 <= k < line.len() ==> unicode_whitespace(#[trigger] line[k])
}

pub fn is_blank(line: &Vec<char>) -> (res: bool)
    ensures
        res == blank_line(line@),
{
    let mut k: usize = 0;
    while k < line.len()
        invariant
            k <= line.len(),
            forall|m: int| 0 <= m < k ==> unicode_whitespace(#[trigger] line@[m]),
        decreases line.len() - k,
    {
        if !is_whitespace(line[k]) {
            return false;
        }
        k += 1;
    }
    true
}

/// What `String::from_utf8_lossy` makes of some bytes: their UTF-8 reading,
/// with each invalid sequence replaced by U+FFFD.
pub uninterp spec fn lossy_text(bytes: Seq<u8>) -> Seq<char>;

/// `String::from_utf8_lossy`, as characters. Its contract gives the named
/// reading, and for valid UTF-8 the plain fact that it is the decoding.
#[verifier::external_body]
pub fn lossy_chars(bytes: &[u8]) -> (res: Vec<char>)
    ensures
        res@ == lossy_text(bytes@),
        vstd::utf8::valid_utf8(bytes@) ==> res@ == vstd::utf8::decode_utf8(bytes@),
{
    String::from_utf8_lossy(bytes).chars().collect()
}

} // verus!

verus! {

/// A text with every space removed, as `replace(' ', "")` leaves it.
pub open spec fn without_spaces(s: Seq<char>) -> Seq<char>
    decreases s.len(),
{
    if s.len() == 0 {
        Seq::empty()
    } else if s.last() == ' ' {
        without_spaces(s.drop_last())
    } else {
        without_spaces(s.drop_last()).push(s.last())
    }
}

pub fn strip_spaces(s: &Vec<char>) -> (res: Vec<char>)
    ensures
        res@ == without_spaces(s@),
{
    let mut res: Vec<char> = Vec::new();
    let mut i: usize = 0;
    while i < s.len()
        invariant
            i <= s.len(),
            res@ == without_spaces(s@.take(i as int)),
        decreases s.len() - i,
    {
        assert(s@.take(i + 1).drop_last() == s@.take(i as int));
        if s[i] != ' ' {
            res.push(s[i]);
        }
        i += 1;
    }
    assert(s@.take(s.len() as int) == s@);
    res
}

} // verus!

verus! {

/// `s` with each occurrence of `pat` replaced by `by_text`, scanning left to
/// right and resuming after each replaced occurrence, as `str::replace` does
/// for a non-empty pattern.
pub open spec fn replaced(s: Seq<char>, pat: Seq<char>, by_text: Seq<char>) -> Seq<char>
    decreases s.len(),
{
    if s.len() == 0 {
        Seq::empty()
    } else if pat.len() > 0 && occurs_at(s, pat, 0) {
        by_text + replaced(s.skip(pat.len() as int), pat, by_text)
    } else {
        seq![s[0]] + replaced(s.skip(1), pat, by_text)
    }
}

/// Whether `pat` occurs in `s` starting at `k`.
pub fn occurs_at_index(s: &Vec<char>, pat: &Vec<char>, k: usize) -> (res: bool)
    ensures
        res == occurs_at(s@, pat@, k as int),
{
    if k > s.len() || pat.len() > s.len() - k {
        return false;
    }
    let mut j: usize = 0;
    while j < pat.len()
        invariant
            k + pat.len() <= s.len(),
            j <= pat.len(),
            forall|m: int| 0 <= m < j ==> s@[k + m] == pat@[m],
        decreases pat.len() - j,
    {
        if s[k + j] != pat[j] {
            assert(s@.subrange(k as int, k + pat.len())[j as int] != pat@[j as int]);
            return false;
        }
        j += 1;
    }
    assert(s@.subrange(k as int, k + pat.len()) =~= pat@);
    true
}

/// `s` with each occurrence of a non-empty `pat` replaced by `by_text`.
pub fn replace_text(s: &str, pat: &str, by_text: &str) -> (res: String)
    requires
        pat@.len() > 0,
    ensures
        res@ == replaced(s@, pat@, by_text@),
{
    let cs = chars_of(s);
    let ps = chars_of(pat);
    let bs = chars_of(by_text);
    let mut out: Vec<char> = Vec::new();
    let mut k: usize = 0;
    assert(cs@.skip(0) =~= cs@);
    assert(out@ + replaced(cs@.skip(0), ps@, bs@) =~= replaced(cs@, ps@, bs@));
    while k < cs.len()
        invariant
            ps@ == pat@,
            bs@ == by_text@,
            cs@ == s@,
            ps.len() > 0,
            k <= cs.len(),
            out@ + replaced(cs@.skip(k as int), ps@, bs@) == replaced(cs@, ps@, bs@),
        decreases cs.len() - k,
    {
        let ghost rest = cs@.skip(k as int);
        let ghost before = out@;
        if occurs_at_index(&cs, &ps, k) {
            assert(rest.subrange(0, ps.len() as int) =~= cs@.subrange(k as int, k + ps.len()));
            assert(rest.skip(ps.len() as int) =~= cs@.skip(k + ps.len()));
            let mut j: usize = 0;
            while j < bs.len()
                invariant
                    j <= bs.len(),
                    out@ == before + bs@.take(j as int),
                decreases bs.len() - j,
            {
                out.push(bs[j]);
                j += 1;
                assert(out@ =~= before + bs@.take(j as int));
            }
            assert(bs@.take(bs.len() as int) =~= bs@);
            assert(out@ + replaced(cs@.skip(k + ps.len()), ps@, bs@) =~= before + replaced(rest, ps@, bs@));
            k = k + ps.len();
        } else {
            assert(!occurs_at(rest, ps@, 0)) by {
                if occurs_at(rest, ps@, 0) {
                    assert(rest.subrange(0, ps.len() as int) =~= cs@.subrange(k as int, k + ps.len()));
                }
            }
            assert(rest.skip(1) =~= cs@.skip(k + 1));
            out.push(cs[k]);
            assert(out@ + replaced(cs@.skip(k + 1), ps@, bs@) =~= before + replaced(rest, ps@, bs@));
            k = k + 1;
        }
    }
    assert(cs@.skip(k as int) =~= Seq::<char>::empty());
    assert(out@ =~= out@ + replaced(cs@.skip(k as int), ps@, bs@));
    string_of(out.as_slice())
}

} // verus!

verus! {

/// Whether `a` sorts before `b` in code-point order, as `<` on `str` does.
pub open spec fn text_before(a: Seq<char>, b: Seq<char>) -> bool
    decreases a.len(),
{
    if b.len() == 0 {
        false
    } else if a.len() == 0 {
        true
    } else if a[0] != b[0] {
        (a[0] as int) < (b[0] as int)
    } else {
        text_before(a.skip(1), b.skip(1))
    }
}


/// Whether `a` sorts before `b` in code-point order.
pub fn text_precedes(a: &str, b: &str) -> (res: bool)
    ensures
        res == text_before(a@, b@),
{
    let x = chars_of(a);
    let y = chars_of(b);
    let mut i: usize = 0;
    assert(x@.skip(0) =~= x@ && y@.skip(0) =~= y@);
    while i < x.len() && i < y.len()
        invariant
            x@ == a@,
            y@ == b@,
            i <= x.len(),
            i <= y.len(),
            text_before(a@, b@) == text_before(x@.skip(i as int), y@.skip(i as int)),
        decreases x.len() - i,
    {
        if x[i] != y[i] {
            return x[i] < y[i];
        }
        assert(x@.skip(i as int).skip(1) =~= x@.skip(i + 1));
        assert(y@.skip(i as int).skip(1) =~= y@.skip(i + 1));
        i += 1;
    }
    i < y.len()
}


/// Code-point order is transitive.
pub proof fn lemma_text_before_transitive(a: Seq<char>, b: Seq<char>, c: Seq<char>)
    ensures
        text_before(a, b) && text_before(b, c) ==> text_before(a, c),
    decreases a.len(),
{
    if a.len() > 0 && b.len() > 0 && c.len() > 0 && a[0] == b[0] && b[0] == c[0] {
        lemma_text_before_transitive(a.skip(1), b.skip(1), c.skip(1));
    }
}

} // verus!

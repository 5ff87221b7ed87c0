//! Character-sequence utilities shared by the rest of the library.
//!
//! The library reasons about text as `Seq<char>` (the view of `String` and
//! `str`), and builds new text in `Vec<char>` before turning it into a
//! `String`.
use vstd::prelude::*;

verus! {

/// The character that spells the decimal digit `d`.
pub open spec fn digit_char(d: nat) -> char {
    if d == 0 { '0' }
    else if d == 1 { '1' }
    else if d == 2 { '2' }
    else if d == 3 { '3' }
    else if d == 4 { '4' }
    else if d == 5 { '5' }
    else if d == 6 { '6' }
    else if d == 7 { '7' }
    else if d == 8 { '8' }
    else { '9' }
}

/// The decimal digit spelled by `c` (meaningful for `'0'..='9'`).
pub open spec fn digit_value(c: char) -> nat {
    if c == '1' { 1 }
    else if c == '2' { 2 }
    else if c == '3' { 3 }
    else if c == '4' { 4 }
    else if c == '5' { 5 }
    else if c == '6' { 6 }
    else if c == '7' { 7 }
    else if c == '8' { 8 }
    else if c == '9' { 9 }
    else { 0 }
}

/// The decimal representation of `n`, without leading zeros: what
/// `n.to_string()` gives for an unsigned integer.
pub open spec fn decimal(n: nat) -> Seq<char>
    decreases n,
{
    if n < 10 {
        seq![digit_char(n)]
    } else {
        decimal(n / 10).push(digit_char(n % 10))
    }
}

/// The number that a string of decimal digits spells.
pub open spec fn decimal_value(s: Seq<char>) -> nat
    decreases s.len(),
{
    if s.len() == 0 {
        0
    } else {
        decimal_value(s.drop_last()) * 10 + digit_value(s.last())
    }
}

/// Reading back the decimal representation of a number gives the number.
pub proof fn lemma_decimal_round_trip(n: nat)
    ensures
        decimal_value(decimal(n)) == n,
        decimal(n).len() >= 1,
    decreases n,
{
    if n >= 10 {
        lemma_decimal_round_trip(n / 10);
        let d = decimal(n);
        assert(d.drop_last() =~= decimal(n / 10));
        assert(d.last() == digit_char(n % 10));
        assert(digit_value(digit_char(n % 10)) == n % 10);
        assert(decimal_value(d) == decimal_value(d.drop_last()) * 10 + digit_value(d.last()));
        assert(n == (n / 10) * 10 + n % 10);
    } else {
        let d = decimal(n);
        assert(d.drop_last() =~= Seq::<char>::empty());
        assert(decimal_value(Seq::<char>::empty()) == 0);
        assert(digit_value(digit_char(n)) == n);
        assert(decimal_value(d) == decimal_value(d.drop_last()) * 10 + digit_value(d.last()));
    }
}

/// Distinct numbers have distinct decimal representations.
pub proof fn lemma_decimal_injective(a: nat, b: nat)
    requires
        decimal(a) == decimal(b),
    ensures
        a == b,
{
    lemma_decimal_round_trip(a);
    lemma_decimal_round_trip(b);
}

/// `s` with every occurrence of `from` replaced by `to`.
pub open spec fn replace_char(s: Seq<char>, from: char, to: char) -> Seq<char> {
    Seq::new(s.len(), |i: int| if s[i] == from { to } else { s[i] })
}

/// `p` is a prefix of `s`.
pub open spec fn has_prefix(s: Seq<char>, p: Seq<char>) -> bool {
    p.len() <= s.len() && s.subrange(0, p.len() as int) == p
}

/// `p` is a suffix of `s`.
pub open spec fn has_suffix(s: Seq<char>, p: Seq<char>) -> bool {
    p.len() <= s.len() && s.subrange(s.len() - p.len(), s.len() as int) == p
}

/// `pat` occurs in `s` starting at index `i`.
pub open spec fn occurs_at(s: Seq<char>, pat: Seq<char>, i: int) -> bool {
    0 <= i && i + pat.len() <= s.len() && s.subrange(i, i + pat.len()) == pat
}

/// `pat` occurs somewhere in `s`.
pub open spec fn occurs_in(s: Seq<char>, pat: Seq<char>) -> bool {
    exists|i: int| occurs_at(s, pat, i)
}

/// `i` is the last position at which `pat` occurs in `s`.
pub open spec fn is_last_occurrence(s: Seq<char>, pat: Seq<char>, i: int) -> bool {
    &&& occurs_at(s, pat, i)
    &&& forall|j: int| i < j ==> !occurs_at(s, pat, j)
}

/// The result of `s.rfind(pat)` counted in characters.
pub open spec fn last_occurrence(s: Seq<char>, pat: Seq<char>) -> Option<int> {
    if exists|i: int| is_last_occurrence(s, pat, i) {
        Some(choose|i: int| is_last_occurrence(s, pat, i))
    } else {
        None
    }
}

/// There is at most one last occurrence.
pub proof fn lemma_last_occurrence_unique(s: Seq<char>, pat: Seq<char>, i: int, j: int)
    requires
        is_last_occurrence(s, pat, i),
        is_last_occurrence(s, pat, j),
    ensures
        i == j,
{
}

/// A pattern that occurs has a last occurrence.
pub proof fn lemma_last_occurrence_exists(s: Seq<char>, pat: Seq<char>, i: int)
    requires
        occurs_at(s, pat, i),
    ensures
        last_occurrence(s, pat) is Some,
        last_occurrence(s, pat)->0 >= i,
        is_last_occurrence(s, pat, last_occurrence(s, pat)->0),
    decreases s.len() - i,
{
    if forall|j: int| i < j ==> !occurs_at(s, pat, j) {
        assert(is_last_occurrence(s, pat, i));
    } else {
        let j = choose|j: int| i < j && occurs_at(s, pat, j);
        lemma_last_occurrence_exists(s, pat, j);
    }
}

/// `i` is the first position at which `pat` occurs in `s`.
pub open spec fn is_first_occurrence(s: Seq<char>, pat: Seq<char>, i: int) -> bool {
    &&& occurs_at(s, pat, i)
    &&& forall|j: int| 0 <= j < i ==> !occurs_at(s, pat, j)
}

/// The result of `s.find(pat)` counted in characters.
pub open spec fn first_occurrence(s: Seq<char>, pat: Seq<char>) -> Option<int> {
    if exists|i: int| is_first_occurrence(s, pat, i) {
        Some(choose|i: int| is_first_occurrence(s, pat, i))
    } else {
        None
    }
}

/// `s` is made only of ASCII characters.
pub open spec fn is_ascii_text(s: Seq<char>) -> bool {
    forall|i: int| 0 <= i < s.len() ==> (s[i] as u32) < 128
}

/// The characters of a string slice, as a vector.
pub fn chars_of(s: &str) -> (res: Vec<char>)
    ensures
        res@ == s@,
{
    let mut res: Vec<char> = Vec::new();
    for c in it: s.chars()
        invariant
            res@ == it.seq().take(it.index() as int),
            it.seq() == s@,
    {
        res.push(c);
    }
    res
}

/// Gathers characters into a `String` (`FromIterator<char>` for `String`).
#[verifier::external_body]
pub(crate) fn string_of(chars: &Vec<char>) -> (res: String)
    ensures
        res@ == chars@,
{
    chars.iter().collect()
}

/// The characters of a string literal or slice, gathered into a new `String`.
pub fn owned(s: &str) -> (res: String)
    ensures
        res@ == s@,
{
    s.to_owned()
}

/// Appends the characters of `tail` to `v`.
pub fn push_all(v: &mut Vec<char>, tail: &Vec<char>)
    ensures
        final(v)@ == old(v)@ + tail@,
{
    let mut i: usize = 0;
    while i < tail.len()
        invariant
            i <= tail.len(),
            v@ == old(v)@ + tail@.take(i as int),
        decreases tail.len() - i,
    {
        v.push(tail[i]);
        i = i + 1;
        assert(tail@.take(i as int) =~= tail@.take(i - 1 as int).push(tail@[i - 1]));
    }
    assert(tail@.take(i as int) =~= tail@);
}

/// Appends the characters of `tail` to `v`.
pub fn push_str(v: &mut Vec<char>, tail: &str)
    ensures
        final(v)@ == old(v)@ + tail@,
{
    let t = chars_of(tail);
    push_all(v, &t);
}

/// The character spelling the decimal digit `d`.
pub fn digit(d: u64) -> (c: char)
    requires
        d < 10,
    ensures
        c == digit_char(d as nat),
{
    if d == 0 { '0' }
    else if d == 1 { '1' }
    else if d == 2 { '2' }
    else if d == 3 { '3' }
    else if d == 4 { '4' }
    else if d == 5 { '5' }
    else if d == 6 { '6' }
    else if d == 7 { '7' }
    else if d == 8 { '8' }
    else { '9' }
}

/// The decimal representation of `n`.
pub fn decimal_chars(n: u64) -> (res: Vec<char>)
    ensures
        res@ == decimal(n as nat),
    decreases n,
{
    if n < 10 {
        let mut v: Vec<char> = Vec::new();
        v.push(digit(n));
        v
    } else {
        let mut v = decimal_chars(n / 10);
        v.push(digit(n % 10));
        v
    }
}

/// The decimal representation of `n` as a `String`.
pub fn decimal_string(n: u64) -> (res: String)
    ensures
        res@ == decimal(n as nat),
{
    let v = decimal_chars(n);
    string_of(&v)
}

/// `s` with every `from` replaced by `to`.
pub fn replace_chars(s: &Vec<char>, from: char, to: char) -> (res: Vec<char>)
    ensures
        res@ == replace_char(s@, from, to),
{
    let mut res: Vec<char> = Vec::new();
    let mut i: usize = 0;
    while i < s.len()
        invariant
            i <= s.len(),
            res@ == replace_char(s@, from, to).take(i as int),
        decreases s.len() - i,
    {
        let c = s[i];
        if c == from {
            res.push(to);
        } else {
            res.push(c);
        }
        i = i + 1;
        assert(res@ =~= replace_char(s@, from, to).take(i as int));
    }
    assert(res@ =~= replace_char(s@, from, to));
    res
}

/// Whether the characters `pat` appear in `s` at position `i`.
pub fn matches_at(s: &Vec<char>, pat: &Vec<char>, i: usize) -> (res: bool)
    ensures
        res == occurs_at(s@, pat@, i as int),
{
    if pat.len() > s.len() || i > s.len() - pat.len() {
        return false;
    }
    let mut k: usize = 0;
    while k < pat.len()
        invariant
            k <= pat.len(),
            i + pat.len() <= s.len(),
            forall|m: int| 0 <= m < k ==> s@[i + m] == pat@[m],
        decreases pat.len() - k,
    {
        if s[i + k] != pat[k] {
            assert(s@.subrange(i as int, i + pat.len())[k as int] != pat@[k as int]);
            return false;
        }
        k = k + 1;
    }
    assert(s@.subrange(i as int, i + pat.len()) =~= pat@);
    true
}

/// Whether `s` starts with `p`.
pub fn starts_with(s: &Vec<char>, p: &Vec<char>) -> (res: bool)
    ensures
        res == has_prefix(s@, p@),
{
    matches_at(s, p, 0)
}

/// Whether `s` ends with `p`.
pub fn ends_with(s: &Vec<char>, p: &Vec<char>) -> (res: bool)
    ensures
        res == has_suffix(s@, p@),
{
    if p.len() > s.len() {
        return false;
    }
    matches_at(s, p, s.len() - p.len())
}

/// The characters of `s` from `from` (inclusive) to `to` (exclusive).
pub fn slice_chars(s: &Vec<char>, from: usize, to: usize) -> (res: Vec<char>)
    requires
        from <= to <= s.len(),
    ensures
        res@ == s@.subrange(from as int, to as int),
{
    let mut res: Vec<char> = Vec::new();
    let mut i: usize = from;
    while i < to
        invariant
            from <= i <= to <= s.len(),
            res@ == s@.subrange(from as int, i as int),
        decreases to - i,
    {
        res.push(s[i]);
        i = i + 1;
        assert(res@ =~= s@.subrange(from as int, i as int));
    }
    res
}

/// `s` without the suffix `p`, when it ends with it (`str::strip_suffix`).
pub fn strip_suffix(s: &Vec<char>, p: &Vec<char>) -> (res: Option<Vec<char>>)
    ensures
        res is Some <==> has_suffix(s@, p@),
        res matches Some(r) ==> r@ == s@.subrange(0, s@.len() - p@.len()),
{
    if ends_with(s, p) {
        Some(slice_chars(s, 0, s.len() - p.len()))
    } else {
        None
    }
}

/// The last position where `pat` occurs in `s` (`str::rfind`, counted in characters).
pub fn rfind(s: &Vec<char>, pat: &Vec<char>) -> (res: Option<usize>)
    ensures
        res is None ==> !occurs_in(s@, pat@),
        res matches Some(i) ==> is_last_occurrence(s@, pat@, i as int),
        res matches Some(i) ==> last_occurrence(s@, pat@) == Some(i as int),
        res is None ==> last_occurrence(s@, pat@) is None,
{
    if pat.len() > s.len() {
        assert forall|j: int| !occurs_at(s@, pat@, j) by {}
        return None;
    }
    let mut i: usize = s.len() - pat.len();
    loop
        invariant
            i <= s.len() - pat.len(),
            pat.len() <= s.len(),
            forall|j: int| i < j ==> !occurs_at(s@, pat@, j),
        decreases i,
    {
        if matches_at(s, pat, i) {
            proof {
                lemma_last_occurrence_exists(s@, pat@, i as int);
                lemma_last_occurrence_unique(s@, pat@, i as int, last_occurrence(s@, pat@)->0);
            }
            return Some(i);
        }
        if i == 0 {
            assert forall|j: int| !occurs_at(s@, pat@, j) by {
                if j < 0 {
                }
            }
            return None;
        }
        i = i - 1;
    }
}

/// The first position where `pat` occurs in `s` (`str::find`, counted in
/// characters).
pub fn find(s: &Vec<char>, pat: &Vec<char>) -> (res: Option<usize>)
    ensures
        res matches Some(i) ==> first_occurrence(s@, pat@) == Some(i as int),
        res is None ==> first_occurrence(s@, pat@) is None,
        res is None ==> !occurs_in(s@, pat@),
{
    if pat.len() > s.len() {
        assert forall|j: int| !occurs_at(s@, pat@, j) by {}
        return None;
    }
    let limit = s.len() - pat.len();
    let mut i: usize = 0;
    loop
        invariant
            pat.len() <= s.len(),
            limit == s.len() - pat.len(),
            i <= limit,
            forall|j: int| 0 <= j < i ==> !occurs_at(s@, pat@, j),
        decreases limit - i,
    {
        if matches_at(s, pat, i) {
            proof {
                assert(is_first_occurrence(s@, pat@, i as int));
                let k = choose|k: int| is_first_occurrence(s@, pat@, k);
                assert(k == i as int);
            }
            return Some(i);
        }
        if i == limit {
            assert forall|j: int| !occurs_at(s@, pat@, j) by {}
            return None;
        }
        i = i + 1;
    }
}

/// Whether `c` has Unicode's `White_Space` property (what
/// `char::is_whitespace` reports): the tab to the carriage return, the
/// space, the next-line control, the no-break space, the Ogham space mark,
/// the en quad to the hair space, the line and paragraph separators, the
/// narrow no-break space, the medium mathematical space and the ideographic
/// space.
pub open spec fn unicode_white_space(c: char) -> bool {
    let n = c as u32;
    ||| 0x09 <= n <= 0x0D
    ||| n == 0x20
    ||| n == 0x85
    ||| n == 0xA0
    ||| n == 0x1680
    ||| 0x2000 <= n <= 0x200A
    ||| n == 0x2028
    ||| n == 0x2029
    ||| n == 0x202F
    ||| n == 0x205F
    ||| n == 0x3000
}

/// Whether `c` is whitespace in Unicode's sense.
pub fn is_whitespace(c: char) -> (res: bool)
    ensures
        res == unicode_white_space(c),
{
    let n = c as u32;
    (0x09 <= n && n <= 0x0D) || n == 0x20 || n == 0x85 || n == 0xA0 || n == 0x1680
        || (0x2000 <= n && n <= 0x200A) || n == 0x2028 || n == 0x2029 || n == 0x202F
        || n == 0x205F || n == 0x3000
}

/// `s` without its trailing whitespace (`str::trim_end`).
pub open spec fn trimmed_end(s: Seq<char>) -> Seq<char>
    decreases s.len(),
{
    if s.len() > 0 && unicode_white_space(s.last()) {
        trimmed_end(s.drop_last())
    } else {
        s
    }
}

/// `s` without its trailing whitespace.
pub fn trim_end(s: &str) -> (res: String)
    ensures
        res@ == trimmed_end(s@),
{
    let cs = chars_of(s);
    let mut n: usize = cs.len();
    assert(cs@.take(n as int) =~= cs@);
    while n > 0 && is_whitespace(cs[n - 1])
        invariant
            n <= cs.len(),
            trimmed_end(cs@) == trimmed_end(cs@.take(n as int)),
        decreases n,
    {
        assert(cs@.take(n as int).drop_last() =~= cs@.take(n - 1));
        n = n - 1;
    }
    let r = slice_chars(&cs, 0, n);
    assert(r@ =~= cs@.take(n as int));
    string_of(&r)
}

/// The lower-case form of `s`, as `str::to_lowercase` gives it.
pub uninterp spec fn lowercase(s: Seq<char>) -> Seq<char>;

/// `str::to_lowercase`, whose result is named by `lowercase`.
#[verifier::external_body]
pub(crate) fn to_lowercase(s: &str) -> (res: String)
    ensures
        res@ == lowercase(s@),
{
    s.to_lowercase()
}

/// Whether `pat` occurs in `s` (`str::contains`).
pub fn contains(s: &Vec<char>, pat: &Vec<char>) -> (res: bool)
    ensures
        res == occurs_in(s@, pat@),
{
    match rfind(s, pat) {
        Some(_) => true,
        None => false,
    }
}

/// Whether `c` is an ASCII character.
pub fn is_ascii_char(c: char) -> (res: bool)
    ensures
        res == ((c as u32) < 128),
{
    (c as u32) < 128
}


/// The pieces of `s` between occurrences of `sep`, empty ones included
/// (`str::split`).
pub open spec fn pieces(s: Seq<char>, sep: char) -> Seq<Seq<char>>
    decreases s.len(),
{
    if s.len() == 0 {
        seq![Seq::<char>::empty()]
    } else {
        let prev = pieces(s.drop_last(), sep);
        if s.last() == sep {
            prev.push(Seq::<char>::empty())
        } else {
            prev.update(prev.len() - 1, prev.last().push(s.last()))
        }
    }
}

/// There is always at least one piece.
pub proof fn lemma_pieces_nonempty(s: Seq<char>, sep: char)
    ensures
        pieces(s, sep).len() >= 1,
    decreases s.len(),
{
    if s.len() > 0 {
        lemma_pieces_nonempty(s.drop_last(), sep);
    }
}

/// The characters of each vector.
pub open spec fn chars_views(v: Seq<Vec<char>>) -> Seq<Seq<char>> {
    Seq::new(v.len(), |i: int| v[i]@)
}

/// The pieces of `s` between occurrences of `sep`.
pub fn split_chars(s: &Vec<char>, sep: char) -> (res: Vec<Vec<char>>)
    ensures
        chars_views(res@) == pieces(s@, sep),
{
    let mut done: Vec<Vec<char>> = Vec::new();
    let mut current: Vec<char> = Vec::new();
    let mut i: usize = 0;
    assert(s@.take(0) =~= Seq::<char>::empty());
    while i < s.len()
        invariant
            i <= s.len(),
            pieces(s@.take(i as int), sep) == chars_views(done@).push(current@),
        decreases s.len() - i,
    {
        let c = s[i];
        let ghost before = s@.take(i as int);
        let ghost after = s@.take(i + 1);
        assert(after.drop_last() =~= before);
        if c == sep {
            let ghost prev_done = done@;
            let finished = current;
            done.push(finished);
            current = Vec::new();
            assert(chars_views(done@) =~= chars_views(prev_done).push(finished@));
            assert(pieces(after, sep) =~= chars_views(done@).push(current@));
        } else {
            current.push(c);
            assert(pieces(after, sep) =~= chars_views(done@).push(current@));
        }
        i = i + 1;
    }
    assert(s@.take(i as int) =~= s@);
    let ghost prev_done = done@;
    let last = current;
    done.push(last);
    assert(chars_views(done@) =~= chars_views(prev_done).push(last@));
    done
}

/// `l` without one trailing carriage return.
pub open spec fn strip_cr(l: Seq<char>) -> Seq<char> {
    if l.len() > 0 && l.last() == '\r' {
        l.drop_last()
    } else {
        l
    }
}

/// The lines of `s` (`str::lines`): pieces between newlines, a carriage
/// return before a newline removed, and no empty last line.
pub open spec fn text_lines(s: Seq<char>) -> Seq<Seq<char>> {
    let p = pieces(s, '\n');
    let body = Seq::new((p.len() - 1) as nat, |i: int| strip_cr(p[i]));
    if p.last().len() > 0 {
        body.push(p.last())
    } else {
        body
    }
}

/// The lines of `s` (`str::lines`).
pub fn lines_of(s: &Vec<char>) -> (res: Vec<Vec<char>>)
    ensures
        chars_views(res@) == text_lines(s@),
{
    let ps = split_chars(s, '\n');
    proof {
        lemma_pieces_nonempty(s@, '\n');
    }
    let mut res: Vec<Vec<char>> = Vec::new();
    let mut i: usize = 0;
    let n = ps.len() - 1;
    while i < n
        invariant
            n == ps@.len() - 1,
            i <= n,
            chars_views(ps@) == pieces(s@, '\n'),
            chars_views(res@) == Seq::new(i as nat, |k: int| strip_cr(pieces(s@, '\n')[k])),
        decreases n - i,
    {
        let line = &ps[i];
        let stripped = if line.len() > 0 && line[line.len() - 1] == '\r' {
            slice_chars(line, 0, line.len() - 1)
        } else {
            slice_chars(line, 0, line.len())
        };
        proof {
            assert(chars_views(ps@)[i as int] == line@);
            assert(line@.subrange(0, line@.len() as int) =~= line@);
            assert(line@.len() > 0 ==> line@.subrange(0, line@.len() - 1) =~= line@.drop_last());
        }
        assert(stripped@ == strip_cr(line@));
        assert(line@ == pieces(s@, '\n')[i as int]);
        let ghost prev = res@;
        res.push(stripped);
        assert(chars_views(res@) =~= chars_views(prev).push(stripped@));
        i = i + 1;
        assert(chars_views(res@) =~= Seq::new(i as nat, |k: int| strip_cr(pieces(s@, '\n')[k])));
    }
    let last = &ps[n];
    assert(chars_views(ps@)[n as int] == last@);
    if last.len() > 0 {
        let copy = slice_chars(last, 0, last.len());
        assert(last@.subrange(0, last@.len() as int) =~= last@);
        let ghost prev = res@;
        res.push(copy);
        assert(chars_views(res@) =~= chars_views(prev).push(copy@));
    }
    assert(chars_views(res@) =~= text_lines(s@));
    res
}

} // verus!

//! Text as sequences of characters: the parts of `str` and `String` that the
//! configuration edits rely on (trimming, searching, replacing, cutting into
//! lines, joining, reading and writing numbers), each stated exactly and proved.

use vstd::prelude::*;

verus! {

broadcast use vstd::string::group_string_axioms;

/// `String::push`: appends one character to the end of the string.
#[verifier::external_body]
pub(crate) fn push_char(s: &mut String, c: char)
    ensures
        final(s)@ == old(s)@.push(c),
{
    s.push(c);
}

/// The characters of `s`, in order.
pub fn chars_of(s: &str) -> (v: Vec<char>)
    ensures
        v@ == s@,
{
    let mut v: Vec<char> = Vec::new();
    for c in it: s.chars()
        invariant
            v@ == it.seq().take(it.index()),
    {
        v.push(c);
    }
    v
}

/// The string made of the characters of `v`, in order.
pub fn string_from_chars(v: &Vec<char>) -> (s: String)
    ensures
        s@ == v@,
{
    let mut s = String::new();
    for i in 0..v.len()
        invariant
            s@ == v@.take(i as int),
    {
        push_char(&mut s, v[i]);
        assert(v@.take(i + 1) == v@.take(i as int).push(v@[i as int]));
    }
    assert(v@.take(v.len() as int) == v@);
    s
}


/// `char::is_whitespace`: the characters of the Unicode `White_Space` property.
pub open spec fn is_ws(c: char) -> bool {
    let u = c as u32;
    ||| 0x09 <= u <= 0x0D
    ||| u == 0x20
    ||| u == 0x85
    ||| u == 0xA0
    ||| u == 0x1680
    ||| 0x2000 <= u <= 0x200A
    ||| u == 0x2028
    ||| u == 0x2029
    ||| u == 0x202F
    ||| u == 0x205F
    ||| u == 0x3000
}

/// `s` with its leading whitespace removed (`str::trim_start`).
pub open spec fn trim_start(s: Seq<char>) -> Seq<char>
    decreases s.len(),
{
    if s.len() > 0 && is_ws(s[0]) {
        trim_start(s.drop_first())
    } else {
        s
    }
}

/// `s` with its trailing whitespace removed (`str::trim_end`).
pub open spec fn trim_end(s: Seq<char>) -> Seq<char>
    decreases s.len(),
{
    if s.len() > 0 && is_ws(s.last()) {
        trim_end(s.drop_last())
    } else {
        s
    }
}

/// `s` with leading and trailing whitespace removed (`str::trim`).
pub open spec fn trim(s: Seq<char>) -> Seq<char> {
    trim_end(trim_start(s))
}

/// `p` occurs in `s` starting at position `i`.
pub open spec fn matches_at(s: Seq<char>, p: Seq<char>, i: int) -> bool {
    &&& 0 <= i
    &&& i + p.len() <= s.len()
    &&& forall|k: int| 0 <= k < p.len() ==> #[trigger] s[i + k] == p[k]
}

/// `p` occurs somewhere in `s` (`str::contains`).
pub open spec fn contains(s: Seq<char>, p: Seq<char>) -> bool {
    exists|i: int| matches_at(s, p, i)
}

/// `s` begins with `p` (`str::starts_with`).
pub open spec fn starts_with(s: Seq<char>, p: Seq<char>) -> bool {
    matches_at(s, p, 0)
}

/// `s` ends with `p` (`str::ends_with`).
pub open spec fn ends_with(s: Seq<char>, p: Seq<char>) -> bool {
    p.len() <= s.len() && matches_at(s, p, s.len() - p.len())
}

/// `s` ends with the character `c` (`str::ends_with` with a character).
pub open spec fn ends_with_char(s: Seq<char>, c: char) -> bool {
    s.len() > 0 && s.last() == c
}

/// Executable `char::is_whitespace`.
pub fn is_whitespace(c: char) -> (b: bool)
    ensures
        b == is_ws(c),
{
    let u = c as u32;
    (0x09 <= u && u <= 0x0D) || u == 0x20 || u == 0x85 || u == 0xA0 || u == 0x1680 || (0x2000
        <= u && u <= 0x200A) || u == 0x2028 || u == 0x2029 || u == 0x202F || u == 0x205F || u
        == 0x3000
}

/// The characters of `s` from `from` up to, not including, `to`.
pub fn sub_chars(s: &Vec<char>, from: usize, to: usize) -> (v: Vec<char>)
    requires
        from <= to <= s.len(),
    ensures
        v@ == s@.subrange(from as int, to as int),
{
    let mut v: Vec<char> = Vec::new();
    let mut i = from;
    while i < to
        invariant
            from <= i <= to <= s.len(),
            v@ == s@.subrange(from as int, i as int),
        decreases to - i,
    {
        v.push(s[i]);
        i += 1;
        assert(v@ =~= s@.subrange(from as int, i as int));
    }
    v
}

/// Removes leading and trailing whitespace, as `str::trim` does.
pub fn trim_chars(s: &Vec<char>) -> (v: Vec<char>)
    ensures
        v@ == trim(s@),
{
    let n = s.len();
    let mut i: usize = 0;
    assert(s@.skip(0) =~= s@);
    while i < n && is_whitespace(s[i])
        invariant
            i <= n == s.len(),
            trim_start(s@) == trim_start(s@.skip(i as int)),
        decreases n - i,
    {
        assert(s@.skip(i as int).drop_first() =~= s@.skip(i + 1));
        i += 1;
    }
    assert(trim_start(s@) == s@.subrange(i as int, n as int)) by {
        assert(s@.skip(i as int) =~= s@.subrange(i as int, n as int));
    }
    let mut j: usize = n;
    while j > i && is_whitespace(s[j - 1])
        invariant
            i <= j <= n == s.len(),
            trim_start(s@) == s@.subrange(i as int, n as int),
            trim(s@) == trim_end(s@.subrange(i as int, j as int)),
        decreases j,
    {
        assert(s@.subrange(i as int, j as int).drop_last() =~= s@.subrange(i as int, j - 1));
        j -= 1;
    }
    sub_chars(s, i, j)
}

/// Whether `p` occurs in `s` at position `i`.
pub fn matches_at_chars(s: &Vec<char>, p: &Vec<char>, i: usize) -> (b: bool)
    ensures
        b == matches_at(s@, p@, i as int),
{
    if i > s.len() || p.len() > s.len() - i {
        return false;
    }
    let mut k: usize = 0;
    while k < p.len()
        invariant
            i + p.len() <= s.len(),
            k <= p.len(),
            forall|m: int| 0 <= m < k ==> #[trigger] s@[i + m] == p@[m],
        decreases p.len() - k,
    {
        if s[i + k] != p[k] {
            assert(s@[i + k as int] != p@[k as int]);
            return false;
        }
        k += 1;
    }
    true
}

/// Whether `p` occurs anywhere in `s`, as `str::contains` answers.
pub fn contains_chars(s: &Vec<char>, p: &Vec<char>) -> (b: bool)
    ensures
        b == contains(s@, p@),
{
    if p.len() > s.len() {
        assert(forall|i: int| !matches_at(s@, p@, i));
        return false;
    }
    let last = s.len() - p.len();
    let mut i: usize = 0;
    while i <= last
        invariant
            last == s.len() - p.len(),
            i <= last + 1,
            forall|k: int| 0 <= k < i ==> !matches_at(s@, p@, k),
        decreases last + 1 - i,
    {
        if matches_at_chars(s, p, i) {
            return true;
        }
        i += 1;
    }
    assert(forall|k: int| !matches_at(s@, p@, k));
    false
}

/// Whether `s` begins with `p`, as `str::starts_with` answers.
pub fn starts_with_chars(s: &Vec<char>, p: &Vec<char>) -> (b: bool)
    ensures
        b == starts_with(s@, p@),
{
    matches_at_chars(s, p, 0)
}

/// Whether `s` ends with `c`, as `str::ends_with` answers for a character.
pub fn ends_with_char_chars(s: &Vec<char>, c: char) -> (b: bool)
    ensures
        b == ends_with_char(s@, c),
{
    s.len() > 0 && s[s.len() - 1] == c
}


/// The first position at or after `i` that holds `c`, or the length of `s` when none does.
pub open spec fn next_index(s: Seq<char>, c: char, i: nat) -> nat
    decreases s.len() - i,
{
    if i >= s.len() || s[i as int] == c {
        i
    } else {
        next_index(s, c, i + 1)
    }
}

/// `next_index` lies between `i` and the length of `s`, no position before it holds
/// `c`, and the position it names holds `c` when it is inside `s`.
pub proof fn lemma_next_index(s: Seq<char>, c: char, i: nat)
    requires
        i <= s.len(),
    ensures
        i <= next_index(s, c, i) <= s.len(),
        next_index(s, c, i) < s.len() ==> s[next_index(s, c, i) as int] == c,
        forall|k: int| i <= k < next_index(s, c, i) ==> s[k] != c,
    decreases s.len() - i,
{
    if i < s.len() && s[i as int] != c {
        lemma_next_index(s, c, i + 1);
    }
}

/// The pieces of `s` from position `i` on, cut at each `c` (the tail of `str::split`).
pub open spec fn split_from(s: Seq<char>, c: char, i: nat) -> Seq<Seq<char>>
    decreases s.len() + 1 - i,
{
    if i > s.len() {
        Seq::empty()
    } else {
        let j = next_index(s, c, i);
        proof {
            lemma_next_index(s, c, i);
        }
        let piece = s.subrange(i as int, j as int);
        if j >= s.len() {
            seq![piece]
        } else {
            seq![piece] + split_from(s, c, j + 1)
        }
    }
}

/// The pieces of `s` cut at each `c`, as `str::split` with a character yields them.
pub open spec fn split(s: Seq<char>, c: char) -> Seq<Seq<char>> {
    split_from(s, c, 0)
}

/// One line as `str::lines` hands it out: a final carriage return is dropped
/// when the line was ended by a line feed.
pub open spec fn line_text(piece: Seq<char>, ended: bool) -> Seq<char> {
    if ended && piece.len() > 0 && piece.last() == '\r' {
        piece.drop_last()
    } else {
        piece
    }
}

/// The lines of `s` that start at or after position `i`.
pub open spec fn lines_from(s: Seq<char>, i: nat) -> Seq<Seq<char>>
    decreases s.len() + 1 - i,
{
    if i >= s.len() {
        Seq::empty()
    } else {
        let j = next_index(s, '\n', i);
        proof {
            lemma_next_index(s, '\n', i);
        }
        seq![line_text(s.subrange(i as int, j as int), j < s.len())] + lines_from(s, j + 1)
    }
}

/// The lines of `s`, as `str::lines` and `BufRead::lines` yield them: cut at each
/// line feed, a carriage return before it dropped, and no empty line after a final
/// line feed.
pub open spec fn lines(s: Seq<char>) -> Seq<Seq<char>> {
    lines_from(s, 0)
}

/// The pieces of `parts` with `sep` between each two of them (`[String]::join`).
pub open spec fn join(parts: Seq<Seq<char>>, sep: Seq<char>) -> Seq<char>
    decreases parts.len(),
{
    if parts.len() == 0 {
        Seq::empty()
    } else if parts.len() == 1 {
        parts[0]
    } else {
        join(parts.drop_last(), sep) + sep + parts.last()
    }
}

/// `s` with the first occurrence of `p` replaced by `r`, as `str::replacen` with a
/// count of one does: an empty `p` occurs at the start, so `r` is put in front; a
/// `p` that does not occur leaves `s` as it is.
pub open spec fn replace_first(s: Seq<char>, p: Seq<char>, r: Seq<char>) -> Seq<char>
    decreases s.len(),
{
    if p.len() == 0 {
        r + s
    } else if s.len() == 0 {
        s
    } else if matches_at(s, p, 0) {
        r + s.skip(p.len() as int)
    } else {
        seq![s[0]] + replace_first(s.drop_first(), p, r)
    }
}

/// The first position at or after `i` that holds `c`, or the length of `s`.
pub fn next_index_chars(s: &Vec<char>, c: char, i: usize) -> (j: usize)
    requires
        i <= s.len(),
    ensures
        j == next_index(s@, c, i as nat),
        i <= j <= s.len(),
{
    let mut j = i;
    while j < s.len() && s[j] != c
        invariant
            i <= j <= s.len(),
            next_index(s@, c, i as nat) == next_index(s@, c, j as nat),
        decreases s.len() - j,
    {
        j += 1;
    }
    j
}

/// The pieces of `s` cut at each `c`, as `str::split` with a character yields them.
pub fn split_chars(s: &Vec<char>, c: char) -> (parts: Vec<Vec<char>>)
    ensures
        parts.deep_view() == split(s@, c),
{
    let mut parts: Vec<Vec<char>> = Vec::new();
    let mut i: usize = 0;
    loop
        invariant
            i <= s.len(),
            parts.deep_view() + split_from(s@, c, i as nat) == split(s@, c),
        decreases s.len() - i,
    {
        let j = next_index_chars(s, c, i);
        let piece = sub_chars(s, i, j);
        let ghost before = parts.deep_view();
        parts.push(piece);
        assert(parts.deep_view() =~~= before.push(piece@));
        if j >= s.len() {
            assert(parts.deep_view() =~~= split(s@, c));
            return parts;
        }
        assert(before + split_from(s@, c, i as nat) =~~= parts.deep_view() + split_from(
            s@,
            c,
            (j + 1) as nat,
        ));
        i = j + 1;
    }
}

/// The lines of `s`, as `str::lines` yields them.
pub fn lines_chars(s: &Vec<char>) -> (out: Vec<String>)
    ensures
        out.deep_view() == lines(s@),
{
    let mut out: Vec<String> = Vec::new();
    let mut i: usize = 0;
    while i < s.len()
        invariant
            i <= s.len(),
            out.deep_view() + lines_from(s@, i as nat) == lines(s@),
        decreases s.len() - i,
    {
        let j = next_index_chars(s, '\n', i);
        let mut end = j;
        if j < s.len() && j > i && s[j - 1] == '\r' {
            end = j - 1;
        }
        let piece = sub_chars(s, i, end);
        assert(piece@ =~= line_text(s@.subrange(i as int, j as int), j < s.len()));
        let ghost before = out.deep_view();
        out.push(string_from_chars(&piece));
        assert(out.deep_view() =~= before.push(piece@));
        assert(before + lines_from(s@, i as nat) =~= out.deep_view() + lines_from(
            s@,
            (j + 1) as nat,
        ));
        if j >= s.len() {
            assert(lines_from(s@, (j + 1) as nat) =~= Seq::<Seq<char>>::empty());
            assert(out.deep_view() =~= lines(s@));
            return out;
        }
        i = j + 1;
    }
    assert(out.deep_view() =~= lines(s@));
    out
}

/// The strings of `parts` with `sep` between each two of them, as `[String]::join` builds it.
pub fn join_strings(parts: &Vec<String>, sep: &str) -> (res: String)
    ensures
        res@ == join(parts.deep_view(), sep@),
{
    let mut res = String::new();
    let ghost dv = parts.deep_view();
    for i in 0..parts.len()
        invariant
            dv == parts.deep_view(),
            res@ == join(dv.take(i as int), sep@),
    {
        assert(dv.take(i + 1).drop_last() =~= dv.take(i as int));
        if i != 0 {
            res.append(sep);
        }
        res.append(parts[i].as_str());
    }
    assert(dv.take(parts.len() as int) =~= dv);
    res
}

/// `s` with the first occurrence of `p` replaced by `r`, as `str::replacen(p, r, 1)`
/// does (see `replace_first`).
pub fn replace_first_chars(s: &Vec<char>, p: &Vec<char>, r: &Vec<char>) -> (out: Vec<char>)
    ensures
        out@ == replace_first(s@, p@, r@),
{
    if p.len() == 0 {
        let mut out = r.clone();
        let mut m: usize = 0;
        while m < s.len()
            invariant
                m <= s.len(),
                out@ == r@ + s@.take(m as int),
            decreases s.len() - m,
        {
            out.push(s[m]);
            m += 1;
            assert(out@ =~= r@ + s@.take(m as int));
        }
        assert(s@.take(s.len() as int) =~= s@);
        return out;
    }
    let mut i: usize = 0;
    assert(s@.skip(0) =~= s@);
    assert(s@.take(0) + s@ =~= s@);
    while i < s.len()
        invariant
            i <= s.len(),
            p.len() > 0,
            s@.take(i as int) + replace_first(s@.skip(i as int), p@, r@) == replace_first(
                s@,
                p@,
                r@,
            ),
        decreases s.len() - i,
    {
        let ghost rest = s@.skip(i as int);
        if matches_at_chars(s, p, i) {
            assert(matches_at(rest, p@, 0)) by {
                assert forall|k: int| 0 <= k < p@.len() implies #[trigger] rest[0 + k] == p@[k] by {
                    assert(s@[i + k] == p@[k]);
                }
            }
            assert(rest.skip(p.len() as int) =~= s@.skip(i + p.len()));
            let mut out = sub_chars(s, 0, i);
            let mut k: usize = 0;
            while k < r.len()
                invariant
                    k <= r.len(),
                    out@ == s@.take(i as int) + r@.take(k as int),
                decreases r.len() - k,
            {
                out.push(r[k]);
                k += 1;
                assert(out@ =~= s@.take(i as int) + r@.take(k as int));
            }
            assert(r@.take(r.len() as int) =~= r@);
            let tail = sub_chars(s, i + p.len(), s.len());
            assert(tail@ =~= s@.skip(i + p.len()));
            let mut m: usize = 0;
            let ghost head = out@;
            while m < tail.len()
                invariant
                    m <= tail.len(),
                    out@ == head + tail@.take(m as int),
                decreases tail.len() - m,
            {
                out.push(tail[m]);
                m += 1;
                assert(out@ =~= head + tail@.take(m as int));
            }
            assert(tail@.take(tail.len() as int) =~= tail@);
            assert(out@ =~= s@.take(i as int) + (r@ + rest.skip(p.len() as int)));
            return out;
        }
        assert(!matches_at(rest, p@, 0)) by {
            if matches_at(rest, p@, 0) {
                assert forall|k: int| 0 <= k < p@.len() implies #[trigger] s@[i + k] == p@[k] by {
                    assert(rest[0 + k] == p@[k]);
                }
            }
        }
        assert(rest.drop_first() =~= s@.skip(i + 1));
        assert(s@.take(i as int) + (seq![s@[i as int]] + replace_first(s@.skip(i + 1), p@, r@))
            =~= s@.take(i + 1) + replace_first(s@.skip(i + 1), p@, r@));
        i = i + 1;
    }
    assert(s@.skip(i as int) =~= Seq::<char>::empty());
    assert(s@.take(i as int) + Seq::<char>::empty() =~= s@);
    let out = sub_chars(s, 0, s.len());
    assert(out@ =~= s@);
    out
}

/// The ASCII digit for `d`, which is below ten.
pub open spec fn digit_char(d: nat) -> char {
    if d == 0 {
        '0'
    } else if d == 1 {
        '1'
    } else if d == 2 {
        '2'
    } else if d == 3 {
        '3'
    } else if d == 4 {
        '4'
    } else if d == 5 {
        '5'
    } else if d == 6 {
        '6'
    } else if d == 7 {
        '7'
    } else if d == 8 {
        '8'
    } else {
        '9'
    }
}

/// `c` is one of the ASCII digits `0` to `9`.
pub open spec fn is_ascii_digit(c: char) -> bool {
    '0' <= c <= '9'
}

/// The value of the ASCII digit `c`.
pub open spec fn digit_value(c: char) -> nat {
    ((c as u32) - ('0' as u32)) as nat
}

/// The number that the digits `s` spell in base ten.
pub open spec fn digits_value(s: Seq<char>) -> nat
    decreases s.len(),
{
    if s.len() == 0 {
        0
    } else {
        digits_value(s.drop_last()) * 10 + digit_value(s.last())
    }
}

/// Every character of `s` is an ASCII digit.
pub open spec fn all_digits(s: Seq<char>) -> bool {
    forall|i: int| 0 <= i < s.len() ==> is_ascii_digit(#[trigger] s[i])
}

/// The decimal notation of `n`, without sign or leading zeros (`u64::to_string`).
pub open spec fn decimal(n: nat) -> Seq<char>
    decreases n,
{
    if n < 10 {
        seq![digit_char(n)]
    } else {
        decimal(n / 10).push(digit_char(n % 10))
    }
}

/// What `str::parse::<u64>` gives for `s`: an optional `+`, then one or more ASCII
/// digits whose value fits in 64 bits.
pub open spec fn parse_u64(s: Seq<char>) -> Option<u64> {
    let digits = if s.len() > 0 && s[0] == '+' {
        s.drop_first()
    } else {
        s
    };
    if digits.len() > 0 && all_digits(digits) && digits_value(digits) <= u64::MAX {
        Some(digits_value(digits) as u64)
    } else {
        None
    }
}

/// The value of a run of digits is at least the value of any of its prefixes.
pub proof fn lemma_digits_value_prefix(s: Seq<char>, k: int)
    requires
        0 <= k <= s.len(),
    ensures
        digits_value(s.take(k)) <= digits_value(s),
    decreases s.len() - k,
{
    if k < s.len() {
        lemma_digits_value_prefix(s, k + 1);
        assert(s.take(k + 1).drop_last() =~= s.take(k));
    } else {
        assert(s.take(k) =~= s);
    }
}

/// The decimal notation of `n` is a non-empty run of digits whose value is `n`.
pub proof fn lemma_decimal_digits(n: nat)
    ensures
        decimal(n).len() > 0,
        all_digits(decimal(n)),
        decimal(n)[0] != '+',
        digits_value(decimal(n)) == n,
    decreases n,
{
    if n >= 10 {
        lemma_decimal_digits(n / 10);
        let d = decimal(n);
        assert(d.drop_last() =~= decimal(n / 10));
        assert(d.last() == digit_char((n % 10) as nat));
        assert(d[0] == decimal(n / 10)[0]);
        assert(digit_value(digit_char((n % 10) as nat)) == n % 10);
        assert((n / 10) * 10 + n % 10 == n);
    } else {
        assert(digit_value(digit_char(n)) == n);
        assert(decimal(n).drop_last() =~= Seq::<char>::empty());
        assert(digits_value(Seq::<char>::empty()) == 0);
        assert(decimal(n).last() == digit_char(n));
    }
}

/// Parsing the decimal notation of a 64-bit number gives the number back: what the
/// library writes as a serial number, it reads again as the same number.
pub proof fn lemma_parse_decimal(n: u64)
    ensures
        parse_u64(decimal(n as nat)) == Some(n),
{
    lemma_decimal_digits(n as nat);
}

/// Appends the decimal notation of `n` to `s`.
pub fn push_decimal(s: &mut String, n: u64)
    ensures
        final(s)@ == old(s)@ + decimal(n as nat),
    decreases n,
{
    if n >= 10 {
        push_decimal(s, n / 10);
    }
    let d = n % 10;
    let c = if d == 0 {
        '0'
    } else if d == 1 {
        '1'
    } else if d == 2 {
        '2'
    } else if d == 3 {
        '3'
    } else if d == 4 {
        '4'
    } else if d == 5 {
        '5'
    } else if d == 6 {
        '6'
    } else if d == 7 {
        '7'
    } else if d == 8 {
        '8'
    } else {
        '9'
    };
    push_char(s, c);
}

/// The decimal notation of `n`, as `u64::to_string` writes it.
pub fn decimal_string(n: u64) -> (s: String)
    ensures
        s@ == decimal(n as nat),
{
    let mut s = String::new();
    push_decimal(&mut s, n);
    s
}

/// `str::parse::<u64>` on the characters `s`.
pub fn parse_u64_chars(s: &Vec<char>) -> (r: Option<u64>)
    ensures
        r == parse_u64(s@),
{
    let start: usize = if s.len() > 0 && s[0] == '+' {
        1
    } else {
        0
    };
    let ghost digits = if s@.len() > 0 && s@[0] == '+' {
        s@.drop_first()
    } else {
        s@
    };
    assert(digits =~= s@.skip(start as int));
    if start >= s.len() {
        return None;
    }
    let mut acc: u64 = 0;
    let mut i: usize = start;
    while i < s.len()
        invariant
            start <= i <= s.len(),
            digits =~= s@.skip(start as int),
            digits == (if s@.len() > 0 && s@[0] == '+' {
                s@.drop_first()
            } else {
                s@
            }),
            all_digits(digits.take(i - start)),
            acc as nat == digits_value(digits.take(i - start)),
        decreases s.len() - i,
    {
        let c = s[i];
        assert(digits[i - start] == c);
        assert(digits.take(i - start + 1).drop_last() =~= digits.take(i - start));
        assert(digits.take(i - start + 1).last() == c);
        if !('0' <= c && c <= '9') {
            assert(!is_ascii_digit(digits[i - start]));
            assert(!all_digits(digits));
            return None;
        }
        let d = (c as u32 - '0' as u32) as u64;
        assert(digits_value(digits.take(i - start + 1)) == acc * 10 + d);
        match acc.checked_mul(10) {
            Some(m) => match m.checked_add(d) {
                Some(v) => {
                    acc = v;
                },
                None => {
                    proof {
                        lemma_digits_value_prefix(digits, i - start + 1);
                    }
                    return None;
                },
            },
            None => {
                proof {
                    lemma_digits_value_prefix(digits, i - start + 1);
                }
                return None;
            },
        }
        i += 1;
    }
    assert(digits.take(i - start) =~= digits);
    Some(acc)
}


/// Whether `p` occurs in `s`, as `str::contains` answers.
pub fn str_contains(s: &str, p: &str) -> (b: bool)
    ensures
        b == contains(s@, p@),
{
    contains_chars(&chars_of(s), &chars_of(p))
}

/// `s` without leading and trailing whitespace, as `str::trim` gives it.
pub fn str_trim(s: &str) -> (t: String)
    ensures
        t@ == trim(s@),
{
    string_from_chars(&trim_chars(&chars_of(s)))
}

/// Whether `s` begins with `p`, as `str::starts_with` answers.
pub fn str_starts_with(s: &str, p: &str) -> (b: bool)
    ensures
        b == starts_with(s@, p@),
{
    starts_with_chars(&chars_of(s), &chars_of(p))
}

/// The lines of `s`, as `str::lines` yields them.
pub fn str_lines(s: &str) -> (out: Vec<String>)
    ensures
        out.deep_view() == lines(s@),
{
    lines_chars(&chars_of(s))
}

/// A copy of `s`.
pub fn copy_str(s: &str) -> (t: String)
    ensures
        t@ == s@,
{
    let mut t = String::new();
    t.append(s);
    t
}


/// Cutting a text at a character always gives at least one piece.
pub proof fn lemma_split_nonempty(s: Seq<char>, c: char)
    ensures
        split(s, c).len() > 0,
{
    lemma_next_index(s, c, 0);
}


/// A text that reads as a number is not empty.
pub proof fn lemma_parse_nonempty(s: Seq<char>)
    requires
        parse_u64(s) is Some,
    ensures
        s.len() > 0,
{
}


/// The text of `lines`, each followed by a line feed, as `writeln!` writes them one
/// after the other.
pub open spec fn render(lines: Seq<Seq<char>>) -> Seq<char>
    decreases lines.len(),
{
    if lines.len() == 0 {
        Seq::empty()
    } else {
        lines[0] + "\n"@ + render(lines.drop_first())
    }
}

/// `line` holds no line feed.
pub open spec fn no_line_feed(line: Seq<char>) -> bool {
    forall|m: int| 0 <= m < line.len() ==> #[trigger] line[m] != '\n'
}

/// A line that survives being written and read back: it holds no line feed and does
/// not end with a carriage return.
pub open spec fn plain_line(line: Seq<char>) -> bool {
    no_line_feed(line) && !ends_with_char(line, '\r')
}

/// The text of `lines`, each followed by a line feed (see `render`).
pub fn render_lines(lines: &Vec<String>) -> (s: String)
    ensures
        s@ == render(lines.deep_view()),
{
    let ghost dv = lines.deep_view();
    let mut i = lines.len();
    // Built back to front, so that each step adds one line in front.
    let mut acc = String::new();
    assert(dv.skip(i as int) =~= Seq::<Seq<char>>::empty());
    while i > 0
        invariant
            i <= lines.len(),
            dv == lines.deep_view(),
            acc@ == render(dv.skip(i as int)),
        decreases i,
    {
        i -= 1;
        assert(dv.skip(i as int).drop_first() =~= dv.skip(i + 1));
        assert(dv.skip(i as int)[0] == lines[i as int]@);
        let mut next = copy_str(lines[i].as_str());
        next.append("\n");
        next.append(acc.as_str());
        acc = next;
    }
    assert(dv.skip(0) =~= dv);
    acc
}

/// `next_index` finds the first `c` when the positions before it hold none.
pub proof fn lemma_next_index_at(s: Seq<char>, c: char, i: nat, j: nat)
    requires
        i <= j < s.len(),
        s[j as int] == c,
        forall|k: int| i <= k < j ==> s[k] != c,
    ensures
        next_index(s, c, i) == j,
    decreases j - i,
{
    if i < j {
        lemma_next_index_at(s, c, i + 1, j);
    }
}

/// The lines read from position `i` of a text whose rest is `lines` written one after
/// the other are `lines` again.
pub proof fn lemma_lines_from_render(s: Seq<char>, i: nat, lines: Seq<Seq<char>>)
    requires
        i <= s.len(),
        s.subrange(i as int, s.len() as int) == render(lines),
        forall|k: int| 0 <= k < lines.len() ==> plain_line(#[trigger] lines[k]),
    ensures
        lines_from(s, i) == lines,
    decreases lines.len(),
{
    reveal_strlit("\n");
    if lines.len() == 0 {
        assert(s.subrange(i as int, s.len() as int).len() == 0);
        assert(lines_from(s, i) == Seq::<Seq<char>>::empty());
        assert(lines =~= Seq::<Seq<char>>::empty());
    } else {
        let first = lines[0];
        let rest = lines.drop_first();
        let tail = s.subrange(i as int, s.len() as int);
        assert(tail == first + "\n"@ + render(rest));
        let j = i + first.len();
        assert(plain_line(first));
        assert(no_line_feed(first));
        assert forall|k: int| i <= k < j implies s[k] != '\n' by {
            assert(s[k] == tail[k - i]);
            assert(tail[k - i] == first[k - i]);
        }
        assert(s[j as int] == tail[j - i]);
        assert(tail[j - i] == '\n');
        lemma_next_index_at(s, '\n', i, j as nat);
        assert(s.subrange(i as int, j as int) =~= first);
        assert(line_text(first, true) == first);
        assert("\n"@.len() == 1);
        assert(tail.len() == first.len() + 1 + render(rest).len());
        assert forall|k: int| 0 <= k < render(rest).len() implies #[trigger] s.subrange(
            (j + 1) as int,
            s.len() as int,
        )[k] == render(rest)[k] by {
            assert(s[j + 1 + k] == tail[j + 1 + k - i]);
        }
        assert(s.subrange((j + 1) as int, s.len() as int) =~= render(rest));
        assert forall|k: int| 0 <= k < rest.len() implies plain_line(#[trigger] rest[k]) by {
            assert(rest[k] == lines[k + 1]);
        }
        lemma_lines_from_render(s, (j + 1) as nat, rest);
        assert(lines =~= seq![first] + rest);
    }
}

/// Reading back the lines of a text written line by line gives the same lines, when
/// no line holds a line feed or ends with a carriage return: what the library writes
/// with `render_lines`, a later run reads back unchanged.
pub proof fn lemma_lines_of_render(lines: Seq<Seq<char>>)
    requires
        forall|k: int| 0 <= k < lines.len() ==> plain_line(#[trigger] lines[k]),
    ensures
        crate::text::lines(render(lines)) == lines,
{
    let s = render(lines);
    assert(s.subrange(0, s.len() as int) =~= s);
    lemma_lines_from_render(s, 0, lines);
}


/// `trim_start` drops a run of leading whitespace: what it keeps is a suffix of `s`,
/// and every position it drops holds whitespace.
pub proof fn lemma_trim_start_suffix(s: Seq<char>)
    ensures
        trim_start(s).len() <= s.len(),
        trim_start(s) =~= s.skip(s.len() - trim_start(s).len()),
        forall|k: int| 0 <= k < s.len() - trim_start(s).len() ==> is_ws(#[trigger] s[k]),
        trim_start(s).len() > 0 ==> !is_ws(trim_start(s)[0]),
    decreases s.len(),
{
    if s.len() > 0 && is_ws(s[0]) {
        let r = s.drop_first();
        lemma_trim_start_suffix(r);
        assert forall|k: int| 0 <= k < s.len() - trim_start(s).len() implies is_ws(
            #[trigger] s[k],
        ) by {
            if k > 0 {
                assert(s[k] == r[k - 1]);
            }
        }
    }
}

/// A line whose last character is not whitespace keeps its end when trimmed: the
/// trimmed line ends with a text exactly when the line does, for a text that is not
/// empty and holds no whitespace.
pub proof fn lemma_trim_keeps_end(s: Seq<char>, p: Seq<char>)
    requires
        s.len() > 0,
        !is_ws(s.last()),
        p.len() > 0,
        forall|k: int| 0 <= k < p.len() ==> !is_ws(#[trigger] p[k]),
    ensures
        ends_with(trim(s), p) == ends_with(s, p),
{
    lemma_trim_start_suffix(s);
    let t = trim_start(s);
    let a = s.len() - t.len();
    if t.len() == 0 {
        assert(is_ws(s[s.len() - 1]));
    }
    assert(t.last() == s.last());
    assert(trim_end(t) == t);
    if ends_with(s, p) {
        let b = s.len() - p.len();
        if b < a {
            assert(is_ws(s[b + 0]));
            assert(s[b + 0] == p[0]);
        }
        assert(matches_at(t, p, t.len() - p.len())) by {
            assert forall|k: int| 0 <= k < p.len() implies #[trigger] t[t.len() - p.len() + k]
                == p[k] by {
                assert(s[b + k] == p[k]);
            }
        }
    }
    if ends_with(t, p) {
        assert(matches_at(s, p, s.len() - p.len())) by {
            assert forall|k: int| 0 <= k < p.len() implies #[trigger] s[s.len() - p.len() + k]
                == p[k] by {
                assert(t[t.len() - p.len() + k] == p[k]);
            }
        }
    }
}

/// Writing two runs of lines one after the other writes the text of the first, then
/// that of the second.
pub proof fn lemma_render_append(a: Seq<Seq<char>>, b: Seq<Seq<char>>)
    ensures
        render(a + b) == render(a) + render(b),
    decreases a.len(),
{
    if a.len() == 0 {
        assert(a + b =~= b);
    } else {
        lemma_render_append(a.drop_first(), b);
        assert((a + b).drop_first() =~= a.drop_first() + b);
        assert((a + b)[0] == a[0]);
        assert(render(a) + render(b) =~= a[0] + "\n"@ + (render(a.drop_first()) + render(b)));
    }
}

/// `trim_end` drops a run of trailing whitespace: what it keeps is a prefix of `s`.
pub proof fn lemma_trim_end_prefix(s: Seq<char>)
    ensures
        trim_end(s).len() <= s.len(),
        trim_end(s) =~= s.take(trim_end(s).len() as int),
    decreases s.len(),
{
    if s.len() > 0 && is_ws(s.last()) {
        lemma_trim_end_prefix(s.drop_last());
    }
}

/// The trimmed text occurs in the text it was trimmed from.
pub proof fn lemma_trim_within(s: Seq<char>)
    ensures
        contains(s, trim(s)),
{
    lemma_trim_start_suffix(s);
    let t = trim_start(s);
    lemma_trim_end_prefix(t);
    let a = s.len() - t.len();
    let u = trim(s);
    assert(matches_at(s, u, a)) by {
        assert forall|k: int| 0 <= k < u.len() implies #[trigger] s[a + k] == u[k] by {
            assert(u[k] == t[k]);
            assert(t[k] == s[a + k]);
        }
    }
}

/// Containment is transitive: what occurs in a part of `x` occurs in `x`.
pub proof fn lemma_contains_trans(x: Seq<char>, y: Seq<char>, z: Seq<char>)
    requires
        contains(x, y),
        contains(y, z),
    ensures
        contains(x, z),
{
    let i = choose|i: int| matches_at(x, y, i);
    let j = choose|j: int| matches_at(y, z, j);
    assert(matches_at(x, z, i + j)) by {
        assert forall|k: int| 0 <= k < z.len() implies #[trigger] x[i + j + k] == z[k] by {
            assert(y[j + k] == z[k]);
            assert(x[i + (j + k)] == y[j + k]);
        }
    }
}


/// `next_index` runs to the end of `s` when no position from `i` on holds `c`.
pub proof fn lemma_next_index_none(s: Seq<char>, c: char, i: nat)
    requires
        i <= s.len(),
        forall|k: int| i <= k < s.len() ==> s[k] != c,
    ensures
        next_index(s, c, i) == s.len(),
    decreases s.len() - i,
{
    if i < s.len() {
        lemma_next_index_none(s, c, i + 1);
    }
}

/// Joining at least two parts puts the first in front of the join of the others.
pub proof fn lemma_join_front(parts: Seq<Seq<char>>, sep: Seq<char>)
    requires
        parts.len() >= 2,
    ensures
        join(parts, sep) == parts[0] + sep + join(parts.drop_first(), sep),
    decreases parts.len(),
{
    let rest = parts.drop_first();
    if parts.len() == 2 {
        assert(parts.drop_last() =~= seq![parts[0]]);
        assert(rest =~= seq![parts[1]]);
        assert(join(rest, sep) == parts[1]);
        assert(join(parts.drop_last(), sep) == parts[0]);
    } else {
        lemma_join_front(parts.drop_last(), sep);
        assert(parts.drop_last().drop_first() =~= rest.drop_last());
        assert(rest.last() == parts.last());
        assert(parts.drop_last()[0] == parts[0]);
        let a = parts[0];
        let m = join(rest.drop_last(), sep);
        assert(join(rest, sep) == m + sep + rest.last());
        assert(join(parts, sep) == a + sep + m + sep + parts.last());
        assert(a + sep + m + sep + parts.last() =~= a + sep + (m + sep + rest.last()));
    }
}

/// The lines that may be joined by line feeds and read back unchanged: none holds a
/// line feed, none but the last ends with a carriage return, and the last is not
/// empty.
pub open spec fn joinable_lines(lines: Seq<Seq<char>>) -> bool {
    &&& forall|k: int| 0 <= k < lines.len() ==> no_line_feed(#[trigger] lines[k])
    &&& forall|k: int| 0 <= k < lines.len() - 1 ==> !ends_with_char(#[trigger] lines[k], '\r')
    &&& lines.len() > 0 ==> lines.last().len() > 0
}

/// The lines read from position `i` of a text whose rest is `lines` joined by line
/// feeds are `lines` again.
pub proof fn lemma_lines_from_join(s: Seq<char>, i: nat, lines: Seq<Seq<char>>)
    requires
        i <= s.len(),
        s.subrange(i as int, s.len() as int) == join(lines, "\n"@),
        joinable_lines(lines),
    ensures
        lines_from(s, i) == lines,
    decreases lines.len(),
{
    reveal_strlit("\n");
    let tail = s.subrange(i as int, s.len() as int);
    if lines.len() == 0 {
        assert(tail.len() == 0);
        assert(lines =~= Seq::<Seq<char>>::empty());
    } else if lines.len() == 1 {
        let only = lines[0];
        assert(tail == only);
        assert(no_line_feed(lines[0]));
        assert forall|k: int| i <= k < s.len() implies s[k] != '\n' by {
            assert(s[k] == tail[k - i]);
            assert(only[k - i] != '\n');
        }
        lemma_next_index_none(s, '\n', i);
        assert(s.subrange(i as int, s.len() as int) =~= only);
        assert(lines_from(s, (s.len() + 1) as nat) == Seq::<Seq<char>>::empty());
        assert(lines =~= seq![only]);
    } else {
        lemma_join_front(lines, "\n"@);
        let first = lines[0];
        let rest = lines.drop_first();
        assert(tail == first + "\n"@ + join(rest, "\n"@));
        let j = i + first.len();
        assert(no_line_feed(lines[0]));
        assert forall|k: int| i <= k < j implies s[k] != '\n' by {
            assert(s[k] == tail[k - i]);
            assert(tail[k - i] == first[k - i]);
            assert(first[k - i] != '\n');
        }
        assert(s[j as int] == tail[j - i]);
        assert(tail[j - i] == '\n');
        lemma_next_index_at(s, '\n', i, j as nat);
        assert(s.subrange(i as int, j as int) =~= first);
        assert(!ends_with_char(lines[0], '\r'));
        assert(line_text(first, true) == first);
        assert("\n"@.len() == 1);
        assert(tail.len() == first.len() + 1 + join(rest, "\n"@).len());
        assert forall|k: int| 0 <= k < join(rest, "\n"@).len() implies #[trigger] s.subrange(
            (j + 1) as int,
            s.len() as int,
        )[k] == join(rest, "\n"@)[k] by {
            assert(s[j + 1 + k] == tail[j + 1 + k - i]);
        }
        assert(s.subrange((j + 1) as int, s.len() as int) =~= join(rest, "\n"@));
        assert(joinable_lines(rest)) by {
            assert forall|k: int| 0 <= k < rest.len() implies no_line_feed(#[trigger] rest[k]) by {
                assert(rest[k] == lines[k + 1]);
            }
            assert forall|k: int| 0 <= k < rest.len() - 1 implies !ends_with_char(
                #[trigger] rest[k],
                '\r',
            ) by {
                assert(rest[k] == lines[k + 1]);
            }
        }
        lemma_lines_from_join(s, (j + 1) as nat, rest);
        assert(lines =~= seq![first] + rest);
    }
}

/// Reading back the lines of a text made by joining lines with line feeds gives the
/// same lines (see `joinable_lines`): what `/etc/exports` and `named.conf` are
/// rewritten with, a later run reads back unchanged.
pub proof fn lemma_lines_of_join(lines: Seq<Seq<char>>)
    requires
        joinable_lines(lines),
    ensures
        crate::text::lines(join(lines, "\n"@)) == lines,
{
    let s = join(lines, "\n"@);
    assert(s.subrange(0, s.len() as int) =~= s);
    lemma_lines_from_join(s, 0, lines);
}

/// `base` joined with `rel` as `Path::join` does on Unix: an absolute `rel` replaces
/// `base`; otherwise a `/` is put between them unless `base` is empty or already
/// ends with one.
pub open spec fn path_join(base: Seq<char>, rel: Seq<char>) -> Seq<char> {
    if rel.len() > 0 && rel[0] == '/' {
        rel
    } else if base.len() > 0 && base.last() != '/' {
        base + "/"@ + rel
    } else {
        base + rel
    }
}

/// `base` joined with `rel` as `Path::join` does on Unix (see `path_join`).
pub fn path_join_text(base: &str, rel: &str) -> (s: String)
    ensures
        s@ == path_join(base@, rel@),
{
    let b = chars_of(base);
    let r = chars_of(rel);
    let mut s = String::new();
    if r.len() > 0 && r[0] == '/' {
        s.append(rel);
    } else if b.len() > 0 && b[b.len() - 1] != '/' {
        s.append(base);
        s.append("/");
        s.append(rel);
    } else {
        s.append(base);
        s.append(rel);
    }
    s
}

/// The first position at or after `i` that holds whitespace, or the length of `s`.
pub open spec fn ws_index(s: Seq<char>, i: nat) -> nat
    decreases s.len() - i,
{
    if i >= s.len() || is_ws(s[i as int]) {
        i
    } else {
        ws_index(s, i + 1)
    }
}

/// `ws_index` lies between `i` and the length of `s`, and no position before it holds
/// whitespace.
pub proof fn lemma_ws_index(s: Seq<char>, i: nat)
    requires
        i <= s.len(),
    ensures
        i <= ws_index(s, i) <= s.len(),
        forall|k: int| i <= k < ws_index(s, i) ==> !is_ws(#[trigger] s[k]),
        ws_index(s, i) < s.len() ==> is_ws(s[ws_index(s, i) as int]),
    decreases s.len() - i,
{
    if i < s.len() && !is_ws(s[i as int]) {
        lemma_ws_index(s, i + 1);
    }
}

/// The first whitespace-separated field of `line`, as `split_whitespace().next()`
/// gives it; `None` for a blank line.
pub open spec fn first_field(line: Seq<char>) -> Option<Seq<char>> {
    let t = trim_start(line);
    if t.len() == 0 {
        None
    } else {
        Some(t.take(ws_index(t, 0) as int))
    }
}

/// The first whitespace-separated field of `line` (see `first_field`).
pub fn first_field_text(line: &str) -> (f: Option<String>)
    ensures
        match f {
            Some(x) => first_field(line@) == Some(x@),
            None => first_field(line@) is None,
        },
{
    let s = chars_of(line);
    let n = s.len();
    let mut i: usize = 0;
    assert(s@.skip(0) =~= s@);
    while i < n && is_whitespace(s[i])
        invariant
            i <= n == s.len(),
            trim_start(s@) == trim_start(s@.skip(i as int)),
        decreases n - i,
    {
        assert(s@.skip(i as int).drop_first() =~= s@.skip(i + 1));
        i += 1;
    }
    let ghost t = s@.skip(i as int);
    assert(trim_start(s@) == t);
    if i == n {
        return None;
    }
    let mut j: usize = i;
    while j < n && !is_whitespace(s[j])
        invariant
            i <= j <= n == s.len(),
            t == s@.skip(i as int),
            ws_index(t, 0) == ws_index(t, (j - i) as nat),
        decreases n - j,
    {
        assert(t[j - i] == s@[j as int]);
        j += 1;
    }
    if j < n {
        assert(t[j - i] == s@[j as int]);
    }
    let field = sub_chars(&s, i, j);
    assert(field@ =~= t.take(ws_index(t, 0) as int));
    Some(string_from_chars(&field))
}

} // verus!

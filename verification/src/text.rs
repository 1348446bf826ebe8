use vstd::prelude::*;

verus! {

broadcast use vstd::string::group_string_axioms;

/// The characters of `s`, in order.
pub(crate) fn chars_of(s: &str) -> (v: Vec<char>)
    ensures
        v@ == s@,
{
    let mut v: Vec<char> = Vec::new();
    for c in it: s.chars()
        invariant
            v@ == it.seq().take(it.index() as int),
    {
        v.push(c);
    }
    assert(v@ =~= s@);
    v
}

// ---------------------------------------------------------------------------
// Decimal numbers
// ---------------------------------------------------------------------------

pub open spec fn is_digit(c: char) -> bool {
    '0' <= c && c <= '9'
}

pub open spec fn digit_value(c: char) -> nat {
    (c as nat - '0' as nat) as nat
}

pub open spec fn digit_char(d: nat) -> char {
    (d + '0' as nat) as char
}

pub open spec fn all_digits(s: Seq<char>) -> bool {
    forall|i: int| 0 <= i < s.len() ==> is_digit(#[trigger] s[i])
}

/// The number written by the decimal digits `s`, most significant first.
pub open spec fn digits_value(s: Seq<char>) -> nat
    decreases s.len(),
{
    if s.len() == 0 {
        0
    } else {
        digits_value(s.drop_last()) * 10 + digit_value(s.last())
    }
}

/// The shortest decimal writing of `n`.
pub open spec fn decimal(n: nat) -> Seq<char>
    decreases n,
{
    if n < 10 {
        seq![digit_char(n)]
    } else {
        decimal(n / 10).push(digit_char(n % 10))
    }
}

/// Why a text is no `u64`, as `std::num::IntErrorKind` tells it.
#[derive(Debug, Clone, Copy, PartialEq, Eq, Structural)]
pub enum ParseIntKind {
    /// The text is empty.
    Empty,
    /// The text holds a character that is no digit, or is a sign alone.
    InvalidDigit,
    /// The number is larger than `u64::MAX`.
    PosOverflow,
}

/// Reading the digits `d[i..]` left to right onto the value `acc` read so
/// far: a character that is no digit is an invalid digit, and a value past
/// `u64::MAX` an overflow, whichever comes first.
pub open spec fn scan_digits(d: Seq<char>, i: nat, acc: nat) -> Result<nat, ParseIntKind>
    decreases d.len() - i,
{
    if i >= d.len() {
        Ok(acc)
    } else if !is_digit(d[i as int]) {
        Err(ParseIntKind::InvalidDigit)
    } else if acc * 10 + digit_value(d[i as int]) > u64::MAX {
        Err(ParseIntKind::PosOverflow)
    } else {
        scan_digits(d, i + 1, acc * 10 + digit_value(d[i as int]))
    }
}

/// What reading `s` as a `u64` gives, as `str::parse::<u64>` reads it: an
/// empty text is empty, a sign alone is an invalid digit, and otherwise an
/// optional leading `+` is dropped and the rest read as decimal digits.
pub open spec fn parse_u64_spec(s: Seq<char>) -> Result<u64, ParseIntKind> {
    if s.len() == 0 {
        Err(ParseIntKind::Empty)
    } else if s.len() == 1 && (s[0] == '+' || s[0] == '-') {
        Err(ParseIntKind::InvalidDigit)
    } else {
        let digits = if s[0] == '+' {
            s.drop_first()
        } else {
            s
        };
        match scan_digits(digits, 0, 0) {
            Ok(v) => Ok(v as u64),
            Err(kind) => Err(kind),
        }
    }
}

/// A prefix of a digit string never writes a larger number than the whole.
pub proof fn lemma_digits_value_prefix(s: Seq<char>, j: int)
    requires
        0 <= j <= s.len(),
        all_digits(s),
    ensures
        digits_value(s.take(j)) <= digits_value(s),
    decreases s.len(),
{
    if j < s.len() {
        let t = s.drop_last();
        assert(t.take(j) =~= s.take(j));
        lemma_digits_value_prefix(t, j);
    } else {
        assert(s.take(j) =~= s);
    }
}

/// The decimal writing of `n` is a non-empty run of digits whose value is `n`.
pub proof fn lemma_decimal_digits(n: nat)
    ensures
        decimal(n).len() > 0,
        all_digits(decimal(n)),
        digits_value(decimal(n)) == n,
    decreases n,
{
    let d = n % 10;
    assert(((d + 48) as char) as nat == d + 48);
    assert(digit_value(digit_char(d)) == d);
    let s = decimal(n);
    if n < 10 {
        assert(s.drop_last() =~= Seq::<char>::empty());
        assert(s.last() == digit_char(d));
        assert(digits_value(s) == digits_value(s.drop_last()) * 10 + digit_value(s.last()));
    } else {
        lemma_decimal_digits(n / 10);
        assert(s.drop_last() =~= decimal(n / 10));
        assert(s.last() == digit_char(d));
        assert(digits_value(s) == digits_value(s.drop_last()) * 10 + digit_value(s.last()));
        assert((n / 10) * 10 + d == n);
    }
}

/// Reading a run of digits that writes a `u64`, from any point onto the
/// value of what came before, gives the value of the whole run.
pub proof fn lemma_scan_digits_value(d: Seq<char>, i: nat)
    requires
        i <= d.len(),
        all_digits(d),
        digits_value(d) <= u64::MAX,
    ensures
        scan_digits(d, i, digits_value(d.take(i as int))) == Ok::<nat, ParseIntKind>(digits_value(d)),
    decreases d.len() - i,
{
    if i < d.len() {
        let next = d.take((i + 1) as int);
        assert(next.drop_last() =~= d.take(i as int));
        assert(next.last() == d[i as int]);
        lemma_digits_value_prefix(d, (i + 1) as int);
        lemma_scan_digits_value(d, i + 1);
    } else {
        assert(d.take(i as int) =~= d);
    }
}

/// Law: reading back the decimal writing of any `u64` gives that number.
pub proof fn law_parse_decimal_roundtrip(n: u64)
    ensures
        parse_u64_spec(decimal(n as nat)) == Ok::<u64, ParseIntKind>(n),
{
    let d = decimal(n as nat);
    lemma_decimal_digits(n as nat);
    assert(is_digit(d[0]));
    assert(d.take(0) =~= Seq::<char>::empty());
    lemma_scan_digits_value(d, 0);
}

fn digit_str(d: u64) -> (s: &'static str)
    requires
        d < 10,
    ensures
        s@ == seq![digit_char(d as nat)],
{
    proof {
        reveal_strlit("0");
        reveal_strlit("1");
        reveal_strlit("2");
        reveal_strlit("3");
        reveal_strlit("4");
        reveal_strlit("5");
        reveal_strlit("6");
        reveal_strlit("7");
        reveal_strlit("8");
        reveal_strlit("9");
    }
    if d == 0 {
        "0"
    } else if d == 1 {
        "1"
    } else if d == 2 {
        "2"
    } else if d == 3 {
        "3"
    } else if d == 4 {
        "4"
    } else if d == 5 {
        "5"
    } else if d == 6 {
        "6"
    } else if d == 7 {
        "7"
    } else if d == 8 {
        "8"
    } else {
        "9"
    }
}

/// Appends the decimal writing of `n` to `out`.
pub(crate) fn push_decimal(out: &mut String, n: u64)
    ensures
        final(out)@ == old(out)@ + decimal(n as nat),
    decreases n,
{
    if n >= 10 {
        push_decimal(out, n / 10);
    }
    out.append(digit_str(n % 10));
    assert(final(out)@ =~= old(out)@ + decimal(n as nat));
}

/// Reads `v[from..]` as `str::parse::<u64>` reads a string.
pub(crate) fn parse_u64_from(v: &Vec<char>, from: usize) -> (r: Result<u64, ParseIntKind>)
    requires
        from <= v.len(),
    ensures
        r == parse_u64_spec(v@.skip(from as int)),
{
    let ghost s = v@.skip(from as int);
    let len = v.len();
    if from == len {
        return Err(ParseIntKind::Empty);
    }
    if from + 1 == len && (v[from] == '+' || v[from] == '-') {
        return Err(ParseIntKind::InvalidDigit);
    }
    let start = if v[from] == '+' {
        from + 1
    } else {
        from
    };
    let ghost digits = v@.skip(start as int);
    assert(digits =~= (if s[0] == '+' {
        s.drop_first()
    } else {
        s
    }));
    assert(parse_u64_spec(s) == (match scan_digits(digits, 0, 0) {
        Ok(n) => Ok(n as u64),
        Err(kind) => Err(kind),
    }));
    let mut i = start;
    let mut acc: u64 = 0;
    while i < len
        invariant
            start <= i <= len,
            s == v@.skip(from as int),
            parse_u64_spec(s) == (match scan_digits(digits, 0, 0) {
                Ok(n) => Ok(n as u64),
                Err(kind) => Err(kind),
            }),
            len == v.len(),
            digits == v@.skip(start as int),
            scan_digits(digits, 0, 0) == scan_digits(digits, (i - start) as nat, acc as nat),
        decreases len - i,
    {
        let c = v[i];
        assert(c == digits[i - start]);
        if !('0' <= c && c <= '9') {
            assert(scan_digits(digits, (i - start) as nat, acc as nat) == Err::<nat, ParseIntKind>(
                ParseIntKind::InvalidDigit,
            ));
            return Err(ParseIntKind::InvalidDigit);
        }
        let d = (c as u32 - '0' as u32) as u64;
        assert(d == digit_value(digits[i - start]));
        match acc.checked_mul(10) {
            None => {
                return Err(ParseIntKind::PosOverflow);
            },
            Some(m) => match m.checked_add(d) {
                None => {
                    return Err(ParseIntKind::PosOverflow);
                },
                Some(a) => {
                    acc = a;
                },
            },
        }
        i = i + 1;
    }
    Ok(acc)
}

// ---------------------------------------------------------------------------
// Pieces of a text
// ---------------------------------------------------------------------------

/// The text after the last `sep` in `s`, or all of `s` when it holds no
/// `sep`: the last piece that splitting `s` at `sep` yields.
pub open spec fn after_last(s: Seq<char>, sep: char) -> Seq<char>
    decreases s.len(),
{
    if s.len() == 0 {
        s
    } else if s.last() == sep {
        Seq::empty()
    } else {
        after_last(s.drop_last(), sep).push(s.last())
    }
}

/// The last piece of `s` split at `sep` is the end of `s`.
pub proof fn lemma_after_last_is_suffix(s: Seq<char>, sep: char)
    ensures
        after_last(s, sep).len() <= s.len(),
        after_last(s, sep) == s.skip(s.len() - after_last(s, sep).len()),
    decreases s.len(),
{
    if s.len() > 0 && s.last() != sep {
        let t = s.drop_last();
        lemma_after_last_is_suffix(t, sep);
        let n = after_last(t, sep).len();
        assert(t.skip(t.len() - n).push(s.last()) =~= s.skip(s.len() - (n + 1)));
    } else if s.len() > 0 {
        assert(s.skip(s.len() as int) =~= Seq::<char>::empty());
    }
}

/// Where the last piece of `v` split at `sep` begins.
pub(crate) fn last_piece_start(v: &Vec<char>, sep: char) -> (k: usize)
    ensures
        k <= v.len(),
        v@.skip(k as int) == after_last(v@, sep),
{
    let mut k = v.len();
    assert(v@.take(k as int) =~= v@);
    assert(v@.skip(k as int) =~= Seq::<char>::empty());
    while k > 0 && v[k - 1] != sep
        invariant
            k <= v.len(),
            after_last(v@, sep) == after_last(v@.take(k as int), sep) + v@.skip(k as int),
        decreases k,
    {
        let ghost t = v@.take(k as int);
        assert(t.drop_last() =~= v@.take(k - 1));
        assert(seq![t.last()] + v@.skip(k as int) =~= v@.skip(k - 1));
        assert(after_last(t, sep) == after_last(t.drop_last(), sep).push(t.last()));
        assert(after_last(t.drop_last(), sep).push(t.last()) + v@.skip(k as int)
            =~= after_last(t.drop_last(), sep) + v@.skip(k - 1));
        k = k - 1;
    }
    if k == 0 {
        assert(v@.take(0) =~= Seq::<char>::empty());
    }
    assert(after_last(v@.take(k as int), sep) =~= Seq::<char>::empty());
    assert(after_last(v@, sep) =~= v@.skip(k as int));
    k
}

/// Whether `needle` occurs in `hay` starting at position `i`.
pub open spec fn occurs_at(hay: Seq<char>, needle: Seq<char>, i: int) -> bool {
    0 <= i && i + needle.len() <= hay.len() && hay.subrange(i, i + needle.len()) == needle
}

/// The first position at or after `i` where `needle` occurs in `hay`.
pub open spec fn find_from(hay: Seq<char>, needle: Seq<char>, i: nat) -> Option<nat>
    decreases hay.len() + 1 - i,
{
    if i + needle.len() > hay.len() {
        None
    } else if occurs_at(hay, needle, i as int) {
        Some(i)
    } else {
        find_from(hay, needle, i + 1)
    }
}

fn occurs_at_exec(hay: &Vec<char>, needle: &Vec<char>, i: usize) -> (b: bool)
    requires
        i + needle.len() <= hay.len(),
    ensures
        b == occurs_at(hay@, needle@, i as int),
{
    let mut j: usize = 0;
    while j < needle.len()
        invariant
            j <= needle.len(),
            i + needle.len() <= hay.len(),
            forall|t: int| 0 <= t < j ==> hay@[i + t] == needle@[t],
        decreases needle.len() - j,
    {
        if hay[i + j] != needle[j] {
            assert(hay@.subrange(i as int, i + needle.len())[j as int] != needle@[j as int]);
            return false;
        }
        j = j + 1;
    }
    assert(hay@.subrange(i as int, i + needle.len()) =~= needle@);
    true
}

/// The first position at or after `from` where `needle` occurs in `hay`.
pub(crate) fn find_from_exec(hay: &Vec<char>, needle: &Vec<char>, from: usize) -> (r: Option<usize>)
    requires
        needle.len() > 0,
    ensures
        find_from(hay@, needle@, from as nat) == (match r {
            Some(k) => Some(k as nat),
            None => None::<nat>,
        }),
{
    let mut i = from;
    while i <= hay.len() && needle.len() <= hay.len() - i
        invariant
            from <= i,
            needle.len() > 0,
            find_from(hay@, needle@, from as nat) == find_from(hay@, needle@, i as nat),
        decreases hay.len() + 1 - i,
    {
        if occurs_at_exec(hay, needle, i) {
            return Some(i);
        }
        i = i + 1;
    }
    None
}

/// `s` with every leading `c` removed.
pub open spec fn strip_leading(s: Seq<char>, c: char) -> Seq<char>
    decreases s.len(),
{
    if s.len() > 0 && s[0] == c {
        strip_leading(s.drop_first(), c)
    } else {
        s
    }
}

/// `s` with every trailing `c` removed.
pub open spec fn strip_trailing(s: Seq<char>, c: char) -> Seq<char>
    decreases s.len(),
{
    if s.len() > 0 && s.last() == c {
        strip_trailing(s.drop_last(), c)
    } else {
        s
    }
}

/// `s` with every leading and trailing `c` removed, as `str::trim_matches` does.
pub open spec fn trim_char(s: Seq<char>, c: char) -> Seq<char> {
    strip_trailing(strip_leading(s, c), c)
}

/// The bounds of what is left of `v[lo..hi]` once every leading and trailing
/// `c` is removed.
pub(crate) fn trim_bounds(v: &Vec<char>, lo: usize, hi: usize, c: char) -> (r: (usize, usize))
    requires
        lo <= hi <= v.len(),
    ensures
        lo <= r.0 <= r.1 <= hi,
        v@.subrange(r.0 as int, r.1 as int) == trim_char(v@.subrange(lo as int, hi as int), c),
{
    let mut a = lo;
    while a < hi && v[a] == c
        invariant
            lo <= a <= hi <= v.len(),
            strip_leading(v@.subrange(lo as int, hi as int), c) == strip_leading(
                v@.subrange(a as int, hi as int),
                c,
            ),
        decreases hi - a,
    {
        assert(v@.subrange(a as int, hi as int).drop_first() =~= v@.subrange(a + 1, hi as int));
        a = a + 1;
    }
    assert(strip_leading(v@.subrange(a as int, hi as int), c) == v@.subrange(a as int, hi as int));
    let mut b = hi;
    while b > a && v[b - 1] == c
        invariant
            lo <= a <= b <= hi <= v.len(),
            strip_trailing(v@.subrange(a as int, hi as int), c) == strip_trailing(
                v@.subrange(a as int, b as int),
                c,
            ),
        decreases b - a,
    {
        assert(v@.subrange(a as int, b as int).drop_last() =~= v@.subrange(a as int, b - 1));
        b = b - 1;
    }
    (a, b)
}

} // verus!

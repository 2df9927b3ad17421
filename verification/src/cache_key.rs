//! The key under which a preview is cached: the asset's path with the resolution written
//! into the file name, in front of the extension (`dir/name.png` at 64 becomes
//! `dir/name_64x64.png`). The path and the resolution can be read back from the key.

use vstd::prelude::*;
use vstd::string::StringExecFns;
use vstd::string::StrSliceExecFns;

verus! {

/// The position of the last `c` in `s`, or -1 where `s` holds none.
pub open spec fn last_index_of(s: Seq<char>, c: char) -> int
    decreases s.len(),
{
    if s.len() == 0 {
        -1
    } else if s.last() == c {
        s.len() - 1
    } else {
        last_index_of(s.drop_last(), c)
    }
}

/// The position of the first `c` in `s`, or -1 where `s` holds none.
pub open spec fn first_index_of(s: Seq<char>, c: char) -> int
    decreases s.len(),
{
    if s.len() == 0 {
        -1
    } else if s[0] == c {
        0
    } else if first_index_of(s.skip(1), c) < 0 {
        -1
    } else {
        1 + first_index_of(s.skip(1), c)
    }
}

/// Whether `s` holds no `c`.
pub open spec fn free_of(s: Seq<char>, c: char) -> bool {
    forall|i: int| 0 <= i < s.len() ==> s[i] != c
}

/// The character of a decimal digit.
pub open spec fn digit_char(d: int) -> char {
    if d == 0 {
        '0'
    } else if d == 1 {
        '1'
    } else if d == 2 {
        '2'
    } else if d == 3 {
        '3'
    } else if d == 4 {
        '4'
    } else if d == 5 {
        '5'
    } else if d == 6 {
        '6'
    } else if d == 7 {
        '7'
    } else if d == 8 {
        '8'
    } else {
        '9'
    }
}

/// Whether `c` is one of the ten decimal digits.
pub open spec fn is_digit(c: char) -> bool {
    '0' <= c <= '9'
}

/// The value of a decimal digit.
pub open spec fn digit_value(c: char) -> int {
    c as int - '0' as int
}

/// Whether every character of `s` is a decimal digit.
pub open spec fn all_digits(s: Seq<char>) -> bool {
    forall|i: int| 0 <= i < s.len() ==> is_digit(#[trigger] s[i])
}

/// The decimal numeral of `n`, without leading zeros.
pub open spec fn decimal(n: nat) -> Seq<char>
    decreases n,
{
    if n < 10 {
        seq![digit_char(n as int)]
    } else {
        decimal(n / 10).push(digit_char((n % 10) as int))
    }
}

/// The number that a string of decimal digits denotes; leading zeros count for nothing.
pub open spec fn number_of(digits: Seq<char>) -> nat
    decreases digits.len(),
{
    if digits.len() == 0 {
        0
    } else {
        (number_of(digits.drop_last()) * 10 + digit_value(digits.last())) as nat
    }
}

/// The number that `s` denotes as an unsigned 32-bit integer: one or more decimal digits,
/// after a plus sign where `signed` allows one, with a value that fits.
pub open spec fn parse_number(s: Seq<char>, signed: bool) -> Option<u32> {
    let digits = if signed && s.len() > 0 && s[0] == '+' {
        s.skip(1)
    } else {
        s
    };
    if digits.len() > 0 && all_digits(digits) && number_of(digits) <= u32::MAX {
        Some(number_of(digits) as u32)
    } else {
        None
    }
}

/// The resolution that a suffix such as `64x64` denotes: a width and a height around the
/// first `x`, both numbers and equal. The width may carry a plus sign, the height may not.
pub open spec fn resolution_of_suffix(suffix: Seq<char>) -> Option<u32> {
    let x = first_index_of(suffix, 'x');
    if x < 0 {
        None
    } else {
        let width = parse_number(suffix.subrange(0, x), true);
        let height = parse_number(suffix.subrange(x + 1, suffix.len() as int), false);
        if width is Some && height is Some && width == height {
            width
        } else {
            None
        }
    }
}

/// What is written into a file name for a resolution: `_64x64` for 64.
pub open spec fn resolution_suffix(resolution: u32) -> Seq<char> {
    seq!['_'] + decimal(resolution as nat) + seq!['x'] + decimal(resolution as nat)
}

/// Where the file name of a path starts: behind the last `/`.
pub open spec fn name_start(path: Seq<char>) -> int {
    last_index_of(path, '/') + 1
}

/// Where the stem of a file name ends: at its last `.`, or at its end where it has none.
pub open spec fn stem_end(name: Seq<char>) -> int {
    if last_index_of(name, '.') < 0 {
        name.len() as int
    } else {
        last_index_of(name, '.')
    }
}

/// The file name with the resolution written behind its stem.
pub open spec fn name_with_resolution(name: Seq<char>, resolution: u32) -> Seq<char> {
    name.subrange(0, stem_end(name)) + resolution_suffix(resolution) + name.subrange(
        stem_end(name),
        name.len() as int,
    )
}

/// The cache key of a path at a resolution.
pub open spec fn cache_key(path: Seq<char>, resolution: u32) -> Seq<char> {
    path.subrange(0, name_start(path)) + name_with_resolution(
        path.subrange(name_start(path), path.len() as int),
        resolution,
    )
}

/// The file name and the resolution that a file name with a resolution in it was made from,
/// or nothing where the name holds no resolution.
pub open spec fn name_and_resolution(name: Seq<char>) -> Option<(Seq<char>, u32)> {
    let stem = name.subrange(0, stem_end(name));
    let mark = last_index_of(stem, '_');
    if mark < 0 {
        None
    } else {
        match resolution_of_suffix(stem.subrange(mark + 1, stem.len() as int)) {
            None => None,
            Some(resolution) => Some(
                (
                    name.subrange(0, mark) + name.subrange(stem_end(name), name.len() as int),
                    resolution,
                ),
            ),
        }
    }
}

/// The path and the resolution that a cache key was made from, or nothing where the text is
/// no cache key.
pub open spec fn parse_cache_key(key: Seq<char>) -> Option<(Seq<char>, u32)> {
    match name_and_resolution(key.subrange(name_start(key), key.len() as int)) {
        None => None,
        Some((name, resolution)) => Some((key.subrange(0, name_start(key)) + name, resolution)),
    }
}

/// The path that a cache key was made from; the empty path where the text is no cache key.
pub open spec fn path_of_key(key: Seq<char>) -> Seq<char> {
    match parse_cache_key(key) {
        Some((path, _)) => path,
        None => Seq::empty(),
    }
}

/// The resolution that a cache key was made at; zero where the text is no cache key.
pub open spec fn resolution_of_key(key: Seq<char>) -> u32 {
    match parse_cache_key(key) {
        Some((_, resolution)) => resolution,
        None => 0,
    }
}

/// The last `c` of `s` is a `c`, and no `c` follows it.
pub proof fn lemma_last_index_of(s: Seq<char>, c: char)
    ensures
        -1 <= last_index_of(s, c) < s.len(),
        last_index_of(s, c) >= 0 ==> s[last_index_of(s, c)] == c,
        forall|i: int| last_index_of(s, c) < i < s.len() ==> s[i] != c,
    decreases s.len(),
{
    if s.len() > 0 && s.last() != c {
        let front = s.drop_last();
        lemma_last_index_of(front, c);
        assert forall|i: int| last_index_of(s, c) < i < s.len() implies s[i] != c by {
            if i < front.len() {
                assert(s[i] == front[i]);
            }
        }
    }
}

/// Text that holds no `c`, put behind `a`, leaves the last `c` where it is in `a`.
pub proof fn lemma_last_index_before(a: Seq<char>, b: Seq<char>, c: char)
    requires
        free_of(b, c),
    ensures
        last_index_of(a + b, c) == last_index_of(a, c),
    decreases b.len(),
{
    if b.len() == 0 {
        assert(a + b =~= a);
    } else {
        let whole = a + b;
        assert(whole.last() == b.last());
        assert(whole.drop_last() =~= a + b.drop_last());
        lemma_last_index_before(a, b.drop_last(), c);
    }
}

/// A `c` that no `c` follows is the last `c`.
pub proof fn lemma_last_index_is(s: Seq<char>, c: char, at: int)
    requires
        -1 <= at < s.len(),
        at >= 0 ==> s[at] == c,
        forall|i: int| at < i < s.len() ==> s[i] != c,
    ensures
        last_index_of(s, c) == at,
    decreases s.len(),
{
    if s.len() > 0 && s.last() != c {
        lemma_last_index_is(s.drop_last(), c, at);
    }
}

/// The first `c` of `s` is a `c`, and no `c` stands before it.
pub proof fn lemma_first_index_of(s: Seq<char>, c: char)
    ensures
        -1 <= first_index_of(s, c) < s.len(),
        first_index_of(s, c) >= 0 ==> s[first_index_of(s, c)] == c,
        first_index_of(s, c) >= 0 ==> forall|i: int|
            0 <= i < first_index_of(s, c) ==> s[i] != c,
        first_index_of(s, c) < 0 ==> free_of(s, c),
    decreases s.len(),
{
    if s.len() > 0 && s[0] != c {
        let rest = s.skip(1);
        lemma_first_index_of(rest, c);
        if first_index_of(rest, c) >= 0 {
            assert(s[first_index_of(s, c)] == rest[first_index_of(rest, c)]);
            assert forall|i: int| 0 <= i < first_index_of(s, c) implies s[i] != c by {
                if i > 0 {
                    assert(s[i] == rest[i - 1]);
                }
            }
        } else {
            assert forall|i: int| 0 <= i < s.len() implies s[i] != c by {
                if i > 0 {
                    assert(s[i] == rest[i - 1]);
                }
            }
        }
    }
}

/// A `c` that no `c` stands before is the first `c`.
pub proof fn lemma_first_index_is(s: Seq<char>, c: char, at: int)
    requires
        0 <= at < s.len(),
        s[at] == c,
        forall|i: int| 0 <= i < at ==> s[i] != c,
    ensures
        first_index_of(s, c) == at,
    decreases s.len(),
{
    if at > 0 {
        let rest = s.skip(1);
        assert(rest[at - 1] == s[at]);
        assert forall|i: int| 0 <= i < at - 1 implies rest[i] != c by {
            assert(rest[i] == s[i + 1]);
        }
        lemma_first_index_is(rest, c, at - 1);
    }
}

/// A decimal numeral is one or more digits, and denotes its number.
pub proof fn lemma_decimal(n: nat)
    ensures
        decimal(n).len() >= 1,
        all_digits(decimal(n)),
        number_of(decimal(n)) == n,
    decreases n,
{
    if n < 10 {
        let s = decimal(n);
        assert(s.drop_last() =~= Seq::<char>::empty());
        assert(number_of(s.drop_last()) == 0);
    } else {
        lemma_decimal(n / 10);
        let s = decimal(n);
        assert(s.drop_last() =~= decimal(n / 10));
        assert(is_digit(digit_char((n % 10) as int)));
        assert(digit_value(s.last()) == n % 10);
    }
}

/// A string of digits holds none of the characters that shape a cache key.
pub proof fn lemma_digits_hold_no_marks(s: Seq<char>)
    requires
        all_digits(s),
    ensures
        free_of(s, '/'),
        free_of(s, '.'),
        free_of(s, '_'),
        free_of(s, 'x'),
        free_of(s, '+'),
{
    assert forall|i: int| 0 <= i < s.len() implies s[i] != '/' && s[i] != '.' && s[i] != '_'
        && s[i] != 'x' && s[i] != '+' by {
        assert(is_digit(s[i]));
    }
}

/// The suffix that is written for a resolution reads back as that resolution.
pub proof fn lemma_suffix_reads_back(resolution: u32)
    ensures
        resolution_of_suffix(decimal(resolution as nat) + seq!['x'] + decimal(resolution as nat))
            == Some(resolution),
{
    let d = decimal(resolution as nat);
    let s = d + seq!['x'] + d;
    lemma_decimal(resolution as nat);
    lemma_digits_hold_no_marks(d);
    lemma_first_index_is(s, 'x', d.len() as int);
    assert(s.subrange(0, d.len() as int) =~= d);
    assert(s.subrange(d.len() as int + 1, s.len() as int) =~= d);
    assert(d[0] != '+');
}

/// Reading a file name with a resolution in it gives back the name and the resolution.
pub proof fn lemma_name_reads_back(name: Seq<char>, resolution: u32)
    requires
        free_of(name, '/'),
    ensures
        name_and_resolution(name_with_resolution(name, resolution)) == Some((name, resolution)),
        free_of(name_with_resolution(name, resolution), '/'),
{
    let d = decimal(resolution as nat);
    let suffix = resolution_suffix(resolution);
    let cut = stem_end(name);
    let made = name_with_resolution(name, resolution);
    lemma_decimal(resolution as nat);
    lemma_digits_hold_no_marks(d);
    lemma_last_index_of(name, '.');
    assert(suffix.len() == 2 * d.len() + 2);
    assert(suffix[0] == '_');
    assert(suffix[d.len() as int + 1] == 'x');
    assert forall|i: int| 0 <= i < suffix.len() implies suffix[i] != '.' && suffix[i] != '/' && (i
        > 0 ==> suffix[i] != '_') by {
        if 1 <= i <= d.len() {
            assert(suffix[i] == d[i - 1]);
        } else if i > d.len() + 1 {
            assert(suffix[i] == d[i - d.len() - 2]);
        }
    }
    assert forall|i: int| 0 <= i < made.len() implies made[i] == (if i < cut {
        name[i]
    } else if i < cut + suffix.len() {
        suffix[i - cut]
    } else {
        name[i - suffix.len()]
    }) by {}
    let end = cut + suffix.len();
    if cut < name.len() {
        lemma_last_index_is(made, '.', end);
    } else {
        lemma_last_index_is(made, '.', -1);
    }
    assert(stem_end(made) == end);
    let stem = made.subrange(0, end);
    lemma_last_index_is(stem, '_', cut);
    assert(stem.subrange(cut + 1, stem.len() as int) =~= d + seq!['x'] + d);
    lemma_suffix_reads_back(resolution);
    assert(made.subrange(0, cut) + made.subrange(end, made.len() as int) =~= name);
}

/// The key is invertible: reading the cache key of a path at a resolution gives back that
/// path and that resolution.
pub proof fn lemma_cache_key_reads_back(path: Seq<char>, resolution: u32)
    ensures
        parse_cache_key(cache_key(path, resolution)) == Some((path, resolution)),
{
    let start = name_start(path);
    let dir = path.subrange(0, start);
    let name = path.subrange(start, path.len() as int);
    let made = name_with_resolution(name, resolution);
    let key = cache_key(path, resolution);
    lemma_last_index_of(path, '/');
    assert(free_of(name, '/'));
    lemma_name_reads_back(name, resolution);
    assert(key == dir + made);
    lemma_last_index_before(dir, made, '/');
    lemma_last_index_is(dir, '/', start - 1);
    assert(name_start(key) == start);
    assert(key.subrange(start, key.len() as int) =~= made);
    assert(key.subrange(0, start) =~= dir);
    assert(dir + name =~= path);
}

/// Different paths or different resolutions have different cache keys.
pub proof fn lemma_cache_key_injective(p: Seq<char>, r: u32, q: Seq<char>, s: u32)
    requires
        cache_key(p, r) == cache_key(q, s),
    ensures
        p == q,
        r == s,
{
    lemma_cache_key_reads_back(p, r);
    lemma_cache_key_reads_back(q, s);
}

/// The number of a longer string of digits is no smaller than that of its front part.
pub proof fn lemma_number_grows(digits: Seq<char>, front: int)
    requires
        all_digits(digits),
        0 <= front <= digits.len(),
    ensures
        number_of(digits.subrange(0, front)) <= number_of(digits),
    decreases digits.len() - front,
{
    if front < digits.len() {
        let longer = digits.subrange(0, front + 1);
        assert(longer.drop_last() =~= digits.subrange(0, front));
        assert(is_digit(longer.last()));
        lemma_number_grows(digits, front + 1);
    } else {
        assert(digits.subrange(0, front) =~= digits);
    }
}

/// Finds the last `c` among the characters of `s` from `from` up to `to`.
pub fn find_last(s: &str, c: char, from: usize, to: usize) -> (found: Option<usize>)
    requires
        from <= to <= s@.len(),
    ensures
        found is None ==> last_index_of(s@.subrange(from as int, to as int), c) == -1,
        found is Some ==> from <= found->0 < to && last_index_of(
            s@.subrange(from as int, to as int),
            c,
        ) == found->0 - from,
{
    let ghost part = s@.subrange(from as int, to as int);
    let mut at = to;
    while at > from
        invariant
            from <= at <= to <= s@.len(),
            part == s@.subrange(from as int, to as int),
            forall|i: int| at - from <= i < part.len() ==> part[i] != c,
        decreases at,
    {
        at -= 1;
        if s.get_char(at) == c {
            proof {
                lemma_last_index_is(part, c, at - from);
            }
            return Some(at);
        }
    }
    proof {
        lemma_last_index_is(part, c, -1);
    }
    None
}

/// Finds the first `c` among the characters of `s` from `from` up to `to`.
pub fn find_first(s: &str, c: char, from: usize, to: usize) -> (found: Option<usize>)
    requires
        from <= to <= s@.len(),
    ensures
        found is None ==> first_index_of(s@.subrange(from as int, to as int), c) == -1,
        found is Some ==> from <= found->0 < to && first_index_of(
            s@.subrange(from as int, to as int),
            c,
        ) == found->0 - from,
{
    let ghost part = s@.subrange(from as int, to as int);
    let mut at = from;
    while at < to
        invariant
            from <= at <= to <= s@.len(),
            part == s@.subrange(from as int, to as int),
            forall|i: int| 0 <= i < at - from ==> part[i] != c,
        decreases to - at,
    {
        if s.get_char(at) == c {
            proof {
                lemma_first_index_is(part, c, at - from);
            }
            return Some(at);
        }
        at += 1;
    }
    proof {
        lemma_first_index_of(part, c);
        if first_index_of(part, c) >= 0 {
            assert(part[first_index_of(part, c)] == c);
        }
    }
    None
}

/// The text of one decimal digit.
fn digit_text(d: u32) -> (text: &'static str)
    requires
        d < 10,
    ensures
        text@ == seq![digit_char(d as int)],
{
    proof {
        reveal_strlit("0");
        reveal_strlit("1");
        reveal_strlit("2");
        reveal_strlit("3");
        reveal_strlit("4");
        reveal_strlit("5");
        reveal_strlit("6");
        reveal_strlit("7");
        reveal_strlit("8");
        reveal_strlit("9");
    }
    let text = if d == 0 {
        "0"
    } else if d == 1 {
        "1"
    } else if d == 2 {
        "2"
    } else if d == 3 {
        "3"
    } else if d == 4 {
        "4"
    } else if d == 5 {
        "5"
    } else if d == 6 {
        "6"
    } else if d == 7 {
        "7"
    } else if d == 8 {
        "8"
    } else {
        "9"
    };
    assert(text@ =~= seq![digit_char(d as int)]);
    text
}

/// Writes the decimal numeral of `n` behind `out`.
pub fn append_decimal(out: &mut String, n: u64)
    ensures
        final(out)@ == old(out)@ + decimal(n as nat),
    decreases n,
{
    if n >= 10 {
        append_decimal(out, n / 10);
        out.append(digit_text((n % 10) as u32));
        assert(out@ =~= old(out)@ + decimal(n as nat));
    } else {
        out.append(digit_text(n as u32));
    }
}

/// Reads the characters of `s` from `from` up to `to` as an unsigned 32-bit number.
fn number_in(s: &str, from: usize, to: usize, signed: bool) -> (number: Option<u32>)
    requires
        from <= to <= s@.len(),
    ensures
        number == parse_number(s@.subrange(from as int, to as int), signed),
{
    let ghost part = s@.subrange(from as int, to as int);
    let mut at = from;
    if signed && at < to && s.get_char(at) == '+' {
        at += 1;
    }
    let first = at;
    let ghost digits = s@.subrange(first as int, to as int);
    assert(digits =~= if signed && part.len() > 0 && part[0] == '+' {
        part.skip(1)
    } else {
        part
    });
    if first == to {
        return None;
    }
    let mut value: u64 = 0;
    assert(digits.subrange(0, 0) =~= Seq::<char>::empty());
    while at < to
        invariant
            from <= first <= at <= to <= s@.len(),
            first < to,
            digits == s@.subrange(first as int, to as int),
            parse_number(s@.subrange(from as int, to as int), signed) == (if all_digits(digits)
                && number_of(digits) <= u32::MAX {
                Some(number_of(digits) as u32)
            } else {
                None
            }),
            all_digits(digits.subrange(0, at - first)),
            value == number_of(digits.subrange(0, at - first)),
            value <= u32::MAX,
        decreases to - at,
    {
        let c = s.get_char(at);
        let ghost longer = digits.subrange(0, at - first + 1);
        assert(longer.drop_last() =~= digits.subrange(0, at - first));
        assert(longer.last() == c);
        if !('0' <= c && c <= '9') {
            assert(!is_digit(digits[at - first]));
            return None;
        }
        assert forall|i: int| 0 <= i < longer.len() implies is_digit(#[trigger] longer[i]) by {
            if i < at - first {
                assert(longer[i] == digits.subrange(0, at - first)[i]);
            }
        }
        value = value * 10 + (c as u64 - '0' as u64);
        if value > 0xffff_ffff {
            proof {
                if all_digits(digits) {
                    lemma_number_grows(digits, at - first + 1);
                }
            }
            return None;
        }
        at += 1;
    }
    assert(digits.subrange(0, at - first) =~= digits);
    Some(value as u32)
}

/// Reads the characters of `s` from `from` up to `to` as a resolution suffix.
fn resolution_in(s: &str, from: usize, to: usize) -> (resolution: Option<u32>)
    requires
        from <= to <= s@.len(),
    ensures
        resolution == resolution_of_suffix(s@.subrange(from as int, to as int)),
{
    let ghost part = s@.subrange(from as int, to as int);
    match find_first(s, 'x', from, to) {
        None => None,
        Some(x) => {
            assert(part.subrange(0, x - from) =~= s@.subrange(from as int, x as int));
            assert(part.subrange(x - from + 1, part.len() as int) =~= s@.subrange(
                x + 1,
                to as int,
            ));
            let width = number_in(s, from, x, true);
            let height = number_in(s, x + 1, to, false);
            match (width, height) {
                (Some(w), Some(h)) => if w == h {
                    Some(w)
                } else {
                    None
                },
                _ => None,
            }
        },
    }
}

/// Parses a resolution suffix such as `64x64`.
pub fn parse_resolution_suffix(suffix: &str) -> (resolution: Option<u32>)
    ensures
        resolution == resolution_of_suffix(suffix@),
{
    let n = suffix.unicode_len();
    assert(suffix@.subrange(0, n as int) =~= suffix@);
    resolution_in(suffix, 0, n)
}

/// Where the resolution stands in the file name that starts at `start` in `s`: the position
/// of the mark in front of it, the end of the stem, and the resolution itself.
fn resolution_place(s: &str, start: usize) -> (place: Option<(usize, usize, u32)>)
    requires
        start <= s@.len(),
    ensures
        ({
            let name = s@.subrange(start as int, s@.len() as int);
            let stem = name.subrange(0, stem_end(name));
            let mark = last_index_of(stem, '_');
            match place {
                None => name_and_resolution(name) is None,
                Some((mark_at, end_at, resolution)) => {
                    &&& start <= mark_at < end_at <= s@.len()
                    &&& mark_at - start == mark
                    &&& end_at - start == stem_end(name)
                    &&& resolution_of_suffix(stem.subrange(mark + 1, stem.len() as int)) == Some(
                        resolution,
                    )
                },
            }
        }),
{
    let n = s.unicode_len();
    let ghost name = s@.subrange(start as int, n as int);
    proof {
        lemma_last_index_of(name, '.');
    }
    let end_at = match find_last(s, '.', start, n) {
        Some(dot) => dot,
        None => n,
    };
    let ghost stem = name.subrange(0, stem_end(name));
    assert(stem =~= s@.subrange(start as int, end_at as int));
    match find_last(s, '_', start, end_at) {
        None => None,
        Some(mark_at) => {
            assert(stem.subrange(mark_at - start + 1, stem.len() as int) =~= s@.subrange(
                mark_at + 1,
                end_at as int,
            ));
            match resolution_in(s, mark_at + 1, end_at) {
                None => None,
                Some(resolution) => Some((mark_at, end_at, resolution)),
            }
        },
    }
}

/// Takes the resolution out of a file name: `image_64x64.png` gives `image.png` and 64.
pub fn extract_resolution_from_filename(file_name: &str) -> (parts: Option<(String, u32)>)
    ensures
        match parts {
            Some((name, resolution)) => name_and_resolution(file_name@) == Some(
                (name@, resolution),
            ),
            None => name_and_resolution(file_name@) is None,
        },
{
    let n = file_name.unicode_len();
    assert(file_name@.subrange(0, n as int) =~= file_name@);
    match resolution_place(file_name, 0) {
        None => None,
        Some((mark_at, end_at, resolution)) => {
            let mut name = String::from_str(file_name.substring_char(0, mark_at));
            name.append(file_name.substring_char(end_at, n));
            Some((name, resolution))
        },
    }
}

/// Reads a cache key back into the path and the resolution that it was made from.
pub fn parse_cache_path(key: &str) -> (parts: Option<(String, u32)>)
    ensures
        match parts {
            Some((path, resolution)) => parse_cache_key(key@) == Some((path@, resolution)),
            None => parse_cache_key(key@) is None,
        },
{
    let n = key.unicode_len();
    let start = match find_last(key, '/', 0, n) {
        Some(slash) => slash + 1,
        None => 0,
    };
    assert(key@.subrange(0, n as int) =~= key@);
    match resolution_place(key, start) {
        None => None,
        Some((mark_at, end_at, resolution)) => {
            let mut path = String::from_str(key.substring_char(0, mark_at));
            path.append(key.substring_char(end_at, n));
            let ghost name = key@.subrange(start as int, n as int);
            assert(path@ =~= key@.subrange(0, start as int) + (name.subrange(0, mark_at - start)
                + name.subrange(end_at - start, name.len() as int)));
            Some((path, resolution))
        },
    }
}

/// The cache key of a path is the path up to the end of its stem, the resolution suffix,
/// and the rest of the path.
pub proof fn lemma_cache_key_parts(path: Seq<char>, resolution: u32, start: int, cut: int)
    requires
        start == name_start(path),
        0 <= start <= cut <= path.len(),
        cut - start == stem_end(path.subrange(start, path.len() as int)),
    ensures
        cache_key(path, resolution) == path.subrange(0, cut) + seq!['_'] + decimal(
            resolution as nat,
        ) + seq!['x'] + decimal(resolution as nat) + path.subrange(cut, path.len() as int),
{
    let name = path.subrange(start, path.len() as int);
    let dir = path.subrange(0, start);
    let stem = name.subrange(0, cut - start);
    let rest = name.subrange(cut - start, name.len() as int);
    let digits = decimal(resolution as nat);
    assert(path.subrange(0, cut) =~= dir + stem);
    assert(path.subrange(cut, path.len() as int) =~= rest);
    assert(dir + stem + seq!['_'] + digits + seq!['x'] + digits + rest =~= dir + (stem + (seq!['_']
        + digits + seq!['x'] + digits) + rest));
}

/// Makes the cache key of a path at a resolution: `path/to/image.png` at 64 gives
/// `path/to/image_64x64.png`.
pub fn cache_path_for_resolution(path: &str, resolution: u32) -> (key: String)
    ensures
        key@ == cache_key(path@, resolution),
{
    let n = path.unicode_len();
    let start = match find_last(path, '/', 0, n) {
        Some(slash) => slash + 1,
        None => 0,
    };
    assert(path@.subrange(0, n as int) =~= path@);
    proof {
        lemma_last_index_of(path@.subrange(start as int, n as int), '.');
    }
    let cut = match find_last(path, '.', start, n) {
        Some(dot) => dot,
        None => n,
    };
    proof {
        lemma_cache_key_parts(path@, resolution, start as int, cut as int);
        reveal_strlit("_");
        reveal_strlit("x");
        assert("_"@ =~= seq!['_']);
        assert("x"@ =~= seq!['x']);
    }
    let mut key = String::from_str(path.substring_char(0, cut));
    key.append("_");
    append_decimal(&mut key, resolution as u64);
    key.append("x");
    append_decimal(&mut key, resolution as u64);
    key.append(path.substring_char(cut, n));
    key
}

} // verus!

//! Character-level text handling shared by the protocol parsers and the
//! ticket service: integer parsing as `str::parse` does it, decimal and
//! hexadecimal rendering, splitting and searching.
use vstd::prelude::*;
use crate::sys::{chars_of, string_of};

verus! {

pub open spec fn is_digit(c: char) -> bool {
    '0' <= c && c <= '9'
}

pub open spec fn digit_value(c: char) -> nat {
    (c as u32 - '0' as u32) as nat
}

pub open spec fn all_digits(d: Seq<char>) -> bool {
    forall|i: int| 0 <= i < d.len() ==> #[trigger] is_digit(d[i])
}

/// The number that a run of decimal digits denotes.
pub open spec fn digits_value(d: Seq<char>) -> nat
    decreases d.len(),
{
    if d.len() == 0 {
        0
    } else {
        digits_value(d.drop_last()) * 10 + digit_value(d.last())
    }
}

/// The number denoted by the digits of `d`, if it has only digits and it does
/// not exceed `limit`.
pub open spec fn bounded_digits(d: Seq<char>, limit: nat) -> Option<nat> {
    if all_digits(d) && digits_value(d) <= limit {
        Some(digits_value(d))
    } else {
        None
    }
}

/// The integer that `str::parse` reads from `s` for an integer type with
/// bounds `min..=max`: an optional `+` (or `-`, for a signed type) and at
/// least one decimal digit, nothing else, and a value in range.
pub open spec fn parsed_integer(s: Seq<char>, min: int, max: int) -> Option<int> {
    if s.len() == 0 || ((s[0] == '+' || s[0] == '-') && s.len() == 1) {
        None
    } else if s[0] == '-' && min < 0 {
        match bounded_digits(s.drop_first(), (-min) as nat) {
            Some(v) => Some(-v),
            None => None,
        }
    } else if s[0] == '+' {
        match bounded_digits(s.drop_first(), max as nat) {
            Some(v) => Some(v as int),
            None => None,
        }
    } else {
        match bounded_digits(s, max as nat) {
            Some(v) => Some(v as int),
            None => None,
        }
    }
}

pub open spec fn parsed_i32(s: Seq<char>) -> Option<i32> {
    match parsed_integer(s, i32::MIN as int, i32::MAX as int) {
        Some(v) => Some(v as i32),
        None => None,
    }
}

pub open spec fn parsed_u32(s: Seq<char>) -> Option<u32> {
    match parsed_integer(s, 0, u32::MAX as int) {
        Some(v) => Some(v as u32),
        None => None,
    }
}

/// A longer run of digits denotes at least as much as its prefixes.
proof fn lemma_digits_value_prefix(d: Seq<char>, i: int)
    requires
        0 <= i <= d.len(),
        all_digits(d),
    ensures
        digits_value(d.subrange(0, i)) <= digits_value(d),
        all_digits(d.subrange(0, i)),
    decreases d.len() - i,
{
    if i < d.len() {
        lemma_digits_value_prefix(d, i + 1);
        let p = d.subrange(0, i + 1);
        assert(p.drop_last() =~= d.subrange(0, i));
        assert(is_digit(d[i]));
    } else {
        assert(d.subrange(0, i) =~= d);
    }
}

/// Reads the digits of `s` from `start` on, refusing a non-digit and any
/// value above `limit`.
fn read_digits(s: &[char], start: usize, limit: u64) -> (res: Option<u64>)
    requires
        start <= s@.len(),
        limit <= u32::MAX as u64 + 1,
    ensures
        res == (match bounded_digits(s@.subrange(start as int, s@.len() as int), limit as nat) {
            Some(v) => Some(v as u64),
            None => None::<u64>,
        }),
{
    let ghost d = s@.subrange(start as int, s@.len() as int);
    let mut acc: u64 = 0;
    let mut i: usize = start;
    while i < s.len()
        invariant
            start <= i <= s@.len(),
            d == s@.subrange(start as int, s@.len() as int),
            all_digits(d.subrange(0, i - start)),
            acc == digits_value(d.subrange(0, i - start)),
            acc <= limit,
            limit <= u32::MAX as u64 + 1,
        decreases s@.len() - i,
    {
        let c = s[i];
        assert(d[i - start] == c);
        if !('0' <= c && c <= '9') {
            proof {
                assert(!is_digit(d[i - start]));
            }
            return None;
        }
        let dv = (c as u32 - '0' as u32) as u64;
        let ghost prefix = d.subrange(0, i - start + 1);
        assert(prefix.drop_last() =~= d.subrange(0, i - start));
        acc = acc * 10 + dv;
        i += 1;
        if acc > limit {
            proof {
                if all_digits(d) {
                    lemma_digits_value_prefix(d, i - start);
                }
            }
            return None;
        }
        assert(all_digits(d.subrange(0, i - start))) by {
            assert forall|j: int| 0 <= j < i - start implies #[trigger] is_digit(
                d.subrange(0, i - start)[j],
            ) by {
                if j < i - start - 1 {
                    assert(d.subrange(0, i - start)[j] == d.subrange(0, i - start - 1)[j]);
                }
            }
        }
    }
    assert(d.subrange(0, i - start) =~= d);
    Some(acc)
}

/// `str::parse::<i32>` on the characters of `s`.
pub fn parse_i32(s: &[char]) -> (res: Option<i32>)
    ensures
        res == parsed_i32(s@),
{
    if s.len() == 0 || ((s[0] == '+' || s[0] == '-') && s.len() == 1) {
        return None;
    }
    if s[0] == '-' {
        assert(s@.subrange(1, s@.len() as int) =~= s@.drop_first());
        match read_digits(s, 1, 2147483648) {
            Some(v) => Some((0 - v as i64) as i32),
            None => None,
        }
    } else if s[0] == '+' {
        assert(s@.subrange(1, s@.len() as int) =~= s@.drop_first());
        match read_digits(s, 1, 2147483647) {
            Some(v) => Some(v as i32),
            None => None,
        }
    } else {
        assert(s@.subrange(0, s@.len() as int) =~= s@);
        match read_digits(s, 0, 2147483647) {
            Some(v) => Some(v as i32),
            None => None,
        }
    }
}

/// `str::parse::<u32>` on the characters of `s`.
pub fn parse_u32(s: &[char]) -> (res: Option<u32>)
    ensures
        res == parsed_u32(s@),
{
    if s.len() == 0 || ((s[0] == '+' || s[0] == '-') && s.len() == 1) {
        return None;
    }
    if s[0] == '+' {
        assert(s@.subrange(1, s@.len() as int) =~= s@.drop_first());
        match read_digits(s, 1, 4294967295) {
            Some(v) => Some(v as u32),
            None => None,
        }
    } else {
        assert(s@.subrange(0, s@.len() as int) =~= s@);
        match read_digits(s, 0, 4294967295) {
            Some(v) => Some(v as u32),
            None => None,
        }
    }
}

/// The character of a decimal digit.
pub open spec fn digit_char(d: nat) -> char {
    ('0' as u32 + d) as char
}

/// The decimal rendering of `n`, as `Display` writes an unsigned integer.
pub open spec fn decimal_repr(n: nat) -> Seq<char>
    decreases n,
{
    if n < 10 {
        seq![digit_char(n)]
    } else {
        decimal_repr(n / 10) + seq![digit_char(n % 10)]
    }
}

/// The lowercase character of a hexadecimal digit.
pub open spec fn hex_char(d: nat) -> char {
    if d < 10 {
        digit_char(d)
    } else {
        ('a' as u32 + (d - 10)) as char
    }
}

/// The last `width` hexadecimal digits of `n`, in lowercase, padded with
/// zeros: what `{:0width$x}` writes for a number below `16^width`.
pub open spec fn hex_repr(n: nat, width: nat) -> Seq<char>
    decreases width,
{
    if width == 0 {
        seq![]
    } else {
        hex_repr(n / 16, (width - 1) as nat) + seq![hex_char(n % 16)]
    }
}

/// Renders `n` in decimal.
pub fn decimal_chars(n: u64) -> (res: Vec<char>)
    ensures
        res@ == decimal_repr(n as nat),
    decreases n,
{
    let d = (n % 10) as u8;
    let c = (48u8 + d) as char;
    assert(c == digit_char((n % 10) as nat));
    if n < 10 {
        let mut v: Vec<char> = Vec::new();
        v.push(c);
        assert(v@ =~= decimal_repr(n as nat));
        v
    } else {
        let mut v = decimal_chars(n / 10);
        v.push(c);
        assert(v@ =~= decimal_repr(n as nat));
        v
    }
}

/// Renders `n` as `width` lowercase hexadecimal digits.
pub fn hex_chars(n: u64, width: usize) -> (res: Vec<char>)
    ensures
        res@ == hex_repr(n as nat, width as nat),
    decreases width,
{
    if width == 0 {
        let v: Vec<char> = Vec::new();
        assert(v@ =~= hex_repr(n as nat, 0));
        v
    } else {
        let mut v = hex_chars(n / 16, width - 1);
        let d = (n % 16) as u8;
        let c = if d < 10 {
            (48u8 + d) as char
        } else {
            (97u8 + (d - 10)) as char
        };
        assert(c == hex_char((n % 16) as nat));
        v.push(c);
        assert(v@ =~= hex_repr(n as nat, width as nat));
        v
    }
}

/// Appends the characters of `src` to `dst`.
pub fn push_all(dst: &mut Vec<char>, src: &[char])
    ensures
        final(dst)@ == old(dst)@ + src@,
{
    let mut i: usize = 0;
    while i < src.len()
        invariant
            i <= src@.len(),
            dst@ == old(dst)@ + src@.subrange(0, i as int),
        decreases src@.len() - i,
    {
        dst.push(src[i]);
        i += 1;
        assert(dst@ =~= old(dst)@ + src@.subrange(0, i as int));
    }
    assert(src@.subrange(0, src@.len() as int) =~= src@);
}

/// Appends the characters of the string `src` to `dst`.
pub fn push_str(dst: &mut Vec<char>, src: &str)
    ensures
        final(dst)@ == old(dst)@ + src@,
{
    let chars = chars_of(src);
    push_all(dst, chars.as_slice());
}

/// The pieces of `s` between the occurrences of `sep`, as `str::split` gives
/// them: one more piece than there are separators, empty pieces included.
pub open spec fn split_on(s: Seq<char>, sep: char) -> Seq<Seq<char>>
    decreases s.len(),
{
    if s.len() == 0 {
        seq![Seq::<char>::empty()]
    } else if s[0] == sep {
        seq![Seq::<char>::empty()] + split_on(s.drop_first(), sep)
    } else {
        let rest = split_on(s.drop_first(), sep);
        rest.update(0, seq![s[0]] + rest[0])
    }
}

proof fn lemma_split_on_nonempty(s: Seq<char>, sep: char)
    ensures
        split_on(s, sep).len() >= 1,
    decreases s.len(),
{
    if s.len() > 0 {
        lemma_split_on_nonempty(s.drop_first(), sep);
    }
}

spec fn prepend_to_first(c: Seq<char>, r: Seq<Seq<char>>) -> Seq<Seq<char>> {
    r.update(0, c + r[0])
}

/// Splits `s` at every occurrence of `sep`.
pub fn split_chars(s: &[char], sep: char) -> (res: Vec<Vec<char>>)
    ensures
        res@.map_values(|p: Vec<char>| p@) == split_on(s@, sep),
{
    let mut done: Vec<Vec<char>> = Vec::new();
    let mut cur: Vec<char> = Vec::new();
    let mut i: usize = 0;
    proof {
        assert(s@.subrange(0, s@.len() as int) =~= s@);
        lemma_split_on_nonempty(s@, sep);
        assert(prepend_to_first(cur@, split_on(s@, sep)) =~= split_on(s@, sep));
    }
    while i < s.len()
        invariant
            i <= s@.len(),
            split_on(s@, sep) == done@.map_values(|p: Vec<char>| p@) + prepend_to_first(
                cur@,
                split_on(s@.subrange(i as int, s@.len() as int), sep),
            ),
        decreases s@.len() - i,
    {
        let ghost rest = s@.subrange(i as int, s@.len() as int);
        let ghost tail = s@.subrange(i + 1, s@.len() as int);
        assert(rest.drop_first() =~= tail);
        proof {
            lemma_split_on_nonempty(tail, sep);
        }
        let c = s[i];
        let ghost before = done@.map_values(|p: Vec<char>| p@);
        if c == sep {
            let ghost piece = cur@;
            let finished = cur;
            done.push(finished);
            cur = Vec::new();
            assert(done@.map_values(|p: Vec<char>| p@) =~= before.push(piece));
            assert(prepend_to_first(piece, split_on(rest, sep)) =~= seq![piece] + prepend_to_first(
                cur@,
                split_on(tail, sep),
            ));
        } else {
            let ghost old_cur = cur@;
            cur.push(c);
            proof {
                let r = split_on(tail, sep);
                assert(rest.len() > 0 && rest[0] == c);
                assert(split_on(rest, sep) == r.update(0, seq![c] + r[0]));
                assert(old_cur + (seq![c] + r[0]) =~= cur@ + r[0]);
                assert(prepend_to_first(old_cur, split_on(rest, sep)) =~= prepend_to_first(
                    cur@,
                    r,
                ));
            }
        }
        i += 1;
    }
    let ghost before = done@.map_values(|p: Vec<char>| p@);
    let ghost last = cur@;
    done.push(cur);
    assert(s@.subrange(s@.len() as int, s@.len() as int) =~= Seq::<char>::empty());
    assert(done@.map_values(|p: Vec<char>| p@) =~= before.push(last));
    assert(prepend_to_first(last, split_on(Seq::<char>::empty(), sep)) =~= seq![last]);
    done
}

/// `s` begins with `p`.
pub open spec fn has_prefix(s: Seq<char>, p: Seq<char>) -> bool {
    p.len() <= s.len() && s.subrange(0, p.len() as int) == p
}

/// `n` occurs somewhere in `s`.
pub open spec fn has_infix(s: Seq<char>, n: Seq<char>) -> bool {
    exists|i: int| 0 <= i && i + n.len() <= s.len() && #[trigger] s.subrange(i, i + n.len()) == n
}

/// Whether `s` begins with `p`.
pub fn starts_with(s: &[char], p: &[char]) -> (res: bool)
    ensures
        res == has_prefix(s@, p@),
{
    if p.len() > s.len() {
        return false;
    }
    let mut i: usize = 0;
    while i < p.len()
        invariant
            p@.len() <= s@.len(),
            i <= p@.len(),
            forall|j: int| 0 <= j < i ==> s@[j] == p@[j],
        decreases p@.len() - i,
    {
        if s[i] != p[i] {
            assert(s@.subrange(0, p@.len() as int)[i as int] != p@[i as int]);
            return false;
        }
        i += 1;
    }
    assert(s@.subrange(0, p@.len() as int) =~= p@);
    true
}

/// Whether `n` occurs in `s`.
pub fn contains_chars(s: &[char], n: &[char]) -> (res: bool)
    ensures
        res == has_infix(s@, n@),
{
    if n.len() > s.len() {
        return false;
    }
    let last = s.len() - n.len();
    let mut i: usize = 0;
    while i <= last
        invariant
            n@.len() <= s@.len(),
            last == s@.len() - n@.len(),
            i <= last,
            forall|k: int| 0 <= k < i ==> #[trigger] s@.subrange(k, k + n@.len()) != n@,
        decreases last + 1 - i,
    {
        let mut j: usize = 0;
        let mut same = true;
        while j < n.len()
            invariant
                n@.len() <= s@.len(),
                i <= last,
                last == s@.len() - n@.len(),
                j <= n@.len(),
                same == (forall|m: int| 0 <= m < j ==> s@[i + m] == n@[m]),
            decreases n@.len() - j,
        {
            assert(i + j < s.len());
            if s[i + j] != n[j] {
                same = false;
            }
            j += 1;
        }
        if same {
            assert(s@.subrange(i as int, i + n@.len()) =~= n@);
            return true;
        }
        assert(s@.subrange(i as int, i + n@.len()) != n@) by {
            let m = choose|m: int| 0 <= m < n@.len() && s@[i + m] != n@[m];
            assert(s@.subrange(i as int, i + n@.len())[m] != n@[m]);
        }
        if i == last {
            proof {
                assert forall|k: int| 0 <= k && k + n@.len() <= s@.len() implies #[trigger] s@.subrange(
                    k,
                    k + n@.len(),
                ) != n@ by {
                    assert(k <= i);
                }
            }
            return false;
        }
        i += 1;
    }
    false
}

/// `s` without the trailing run of `c`, as `str::trim_end_matches` gives it.
pub open spec fn trim_end(s: Seq<char>, c: char) -> Seq<char>
    decreases s.len(),
{
    if s.len() > 0 && s.last() == c {
        trim_end(s.drop_last(), c)
    } else {
        s
    }
}

/// Removes every trailing `c` from `s`.
pub fn trim_end_chars(s: &[char], c: char) -> (res: Vec<char>)
    ensures
        res@ == trim_end(s@, c),
{
    let mut end: usize = s.len();
    assert(s@.subrange(0, end as int) =~= s@);
    while end > 0 && s[end - 1] == c
        invariant
            end <= s@.len(),
            trim_end(s@.subrange(0, end as int), c) == trim_end(s@, c),
        decreases end,
    {
        assert(s@.subrange(0, end as int).drop_last() =~= s@.subrange(0, end - 1));
        end -= 1;
    }
    let mut out: Vec<char> = Vec::new();
    let mut i: usize = 0;
    while i < end
        invariant
            end <= s@.len(),
            i <= end,
            out@ == s@.subrange(0, i as int),
        decreases end - i,
    {
        out.push(s[i]);
        i += 1;
        assert(out@ =~= s@.subrange(0, i as int));
    }
    proof {
        let t = s@.subrange(0, end as int);
        assert(!(t.len() > 0 && t.last() == c));
        assert(trim_end(t, c) == t);
    }
    out
}

/// The string made of `chars`.
pub fn to_string(chars: &[char]) -> (res: String)
    ensures
        res@ == chars@,
{
    string_of(chars)
}

/// Decimal rendering writes only digits, and they denote the number.
pub proof fn lemma_decimal_repr_digits(n: nat)
    ensures
        all_digits(decimal_repr(n)),
        digits_value(decimal_repr(n)) == n,
        decimal_repr(n).len() >= 1,
    decreases n,
{
    let d = digit_char(n % 10);
    assert(is_digit(d) && digit_value(d) == n % 10);
    if n >= 10 {
        lemma_decimal_repr_digits(n / 10);
        let r = decimal_repr(n);
        assert(r.drop_last() =~= decimal_repr(n / 10));
        assert(r.last() == d);
        assert(digits_value(r) == digits_value(r.drop_last()) * 10 + digit_value(r.last()));
        assert((n / 10) * 10 + n % 10 == n);
        assert forall|i: int| 0 <= i < r.len() implies #[trigger] is_digit(r[i]) by {
            if i < r.len() - 1 {
                assert(r[i] == decimal_repr(n / 10)[i]);
            }
        }
    } else {
        assert(decimal_repr(n) =~= seq![d]);
        assert(decimal_repr(n).drop_last() =~= Seq::<char>::empty());
        assert(digits_value(decimal_repr(n)) == digits_value(Seq::<char>::empty()) * 10 + digit_value(d));
    }
}

/// Reading back a number that `Display` wrote gives the number: parsing the
/// decimal rendering of a `u32` gives it back.
pub proof fn lemma_parse_u32_of_decimal(n: u32)
    ensures
        parsed_u32(decimal_repr(n as nat)) == Some(n),
{
    lemma_decimal_repr_digits(n as nat);
    let r = decimal_repr(n as nat);
    assert(is_digit(r[0]));
}

} // verus!

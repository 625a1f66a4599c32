//! Small text helpers: splitting at a character, decimal integer parsing
//! with the rules of Rust's `str::parse`, and decimal formatting.
use vstd::prelude::*;
use vstd::string::*;

verus! {

/// Index of the first `c` in `s`, or `s.len()` when there is none.
pub open spec fn index_of(s: Seq<char>, c: char) -> int
    decreases s.len(),
{
    if s.len() == 0 {
        0
    } else if s[0] == c {
        0
    } else {
        1 + index_of(s.drop_first(), c)
    }
}

/// `s` split at the first `c` (which is dropped), as `str::split_once`.
pub open spec fn split_once(s: Seq<char>, c: char) -> Option<(Seq<char>, Seq<char>)> {
    let i = index_of(s, c);
    if i < s.len() {
        Some((s.subrange(0, i), s.subrange(i + 1, s.len() as int)))
    } else {
        None
    }
}

pub proof fn lemma_index_of(s: Seq<char>, c: char, i: int)
    requires
        0 <= i <= s.len(),
        forall|j: int| 0 <= j < i ==> s[j] != c,
        i < s.len() ==> s[i] == c,
    ensures
        index_of(s, c) == i,
    decreases s.len(),
{
    if s.len() > 0 && s[0] != c {
        lemma_index_of(s.drop_first(), c, i - 1);
    }
}

pub open spec fn is_digit(c: char) -> bool {
    '0' <= c <= '9'
}

pub open spec fn digit_value(c: char) -> int {
    c as int - '0' as int
}

pub open spec fn all_digits(s: Seq<char>) -> bool {
    forall|i: int| 0 <= i < s.len() ==> is_digit(#[trigger] s[i])
}

/// Value of a string of decimal digits.
pub open spec fn digits_value(s: Seq<char>) -> int
    decreases s.len(),
{
    if s.len() == 0 {
        0
    } else {
        digits_value(s.drop_last()) * 10 + digit_value(s.last())
    }
}

/// Value of an optional `+` followed by at least one digit.
pub open spec fn unsigned_value(s: Seq<char>) -> Option<int> {
    let t = if s.len() > 0 && s[0] == '+' { s.drop_first() } else { s };
    if t.len() > 0 && all_digits(t) {
        Some(digits_value(t))
    } else {
        None
    }
}

/// Value of an optional `+` or `-` followed by at least one digit.
pub open spec fn signed_value(s: Seq<char>) -> Option<int> {
    if s.len() > 0 && s[0] == '-' {
        let t = s.drop_first();
        if t.len() > 0 && all_digits(t) {
            Some(-digits_value(t))
        } else {
            None
        }
    } else {
        unsigned_value(s)
    }
}

/// `str::parse::<u32>`.
pub open spec fn parse_u32_spec(s: Seq<char>) -> Option<u32> {
    match unsigned_value(s) {
        Some(v) => if v <= u32::MAX { Some(v as u32) } else { None },
        None => None,
    }
}

/// `str::parse::<u64>`.
pub open spec fn parse_u64_spec(s: Seq<char>) -> Option<u64> {
    match unsigned_value(s) {
        Some(v) => if v <= u64::MAX { Some(v as u64) } else { None },
        None => None,
    }
}

/// `str::parse::<usize>`.
pub open spec fn parse_usize_spec(s: Seq<char>) -> Option<usize> {
    match unsigned_value(s) {
        Some(v) => if v <= usize::MAX { Some(v as usize) } else { None },
        None => None,
    }
}

/// `str::parse::<u8>`.
pub open spec fn parse_u8_spec(s: Seq<char>) -> Option<u8> {
    match unsigned_value(s) {
        Some(v) => if v <= u8::MAX { Some(v as u8) } else { None },
        None => None,
    }
}

/// `str::parse::<i32>`.
pub open spec fn parse_i32_spec(s: Seq<char>) -> Option<i32> {
    match signed_value(s) {
        Some(v) => if i32::MIN <= v <= i32::MAX { Some(v as i32) } else { None },
        None => None,
    }
}

proof fn lemma_digits_value_nonneg(s: Seq<char>)
    requires
        all_digits(s),
    ensures
        digits_value(s) >= 0,
    decreases s.len(),
{
    if s.len() > 0 {
        lemma_digits_value_nonneg(s.drop_last());
    }
}

/// A digit string is worth at least any of its prefixes.
proof fn lemma_digits_value_prefix(s: Seq<char>, i: int)
    requires
        all_digits(s),
        0 <= i <= s.len(),
    ensures
        digits_value(s.subrange(0, i)) <= digits_value(s),
    decreases s.len() - i,
{
    if i < s.len() {
        lemma_digits_value_prefix(s, i + 1);
        let p = s.subrange(0, i + 1);
        assert(p.drop_last() =~= s.subrange(0, i));
        lemma_digits_value_nonneg(s.subrange(0, i));
    } else {
        assert(s.subrange(0, i) =~= s);
    }
}

/// Index of the first `c` in `s` (`s@.len()` when there is none).
pub fn find_char(s: &str, c: char) -> (r: usize)
    ensures
        r as int == index_of(s@, c),
        r <= s@.len(),
{
    let n = s.unicode_len();
    let mut i: usize = 0;
    while i < n
        invariant
            n == s@.len(),
            i <= n,
            forall|j: int| 0 <= j < i ==> s@[j] != c,
        decreases n - i,
    {
        if s.get_char(i) == c {
            proof { lemma_index_of(s@, c, i as int); }
            return i;
        }
        i = i + 1;
    }
    proof { lemma_index_of(s@, c, i as int); }
    i
}

/// `str::split_once` at a character.
pub fn split_once_char<'a>(s: &'a str, c: char) -> (r: Option<(&'a str, &'a str)>)
    ensures
        match split_once(s@, c) {
            Some(p) => r matches Some(q) && q.0@ == p.0 && q.1@ == p.1,
            None => r is None,
        },
{
    let i = find_char(s, c);
    let n = s.unicode_len();
    if i < n {
        Some((s.substring_char(0, i), s.substring_char(i + 1, n)))
    } else {
        None
    }
}

/// Value of the digits `s[from..]`, or `None` when it exceeds `max`.
fn digits_upto(s: &str, from: usize, max: u64) -> (r: Option<u64>)
    requires
        from < s@.len(),
        all_digits(s@.subrange(from as int, s@.len() as int)),
        max >= 9,
    ensures
        match r {
            Some(v) => v as int == digits_value(s@.subrange(from as int, s@.len() as int))
                && v <= max,
            None => digits_value(s@.subrange(from as int, s@.len() as int)) > max,
        },
{
    let ghost t = s@.subrange(from as int, s@.len() as int);
    let n = s.unicode_len();
    let mut acc: u64 = 0;
    let mut i: usize = from;
    while i < n
        invariant
            n == s@.len(),
            from <= i <= n,
            t == s@.subrange(from as int, n as int),
            all_digits(t),
            acc as int == digits_value(t.subrange(0, i - from)),
            acc <= max,
            max >= 9,
        decreases n - i,
    {
        let ch = s.get_char(i);
        assert(t[i - from] == ch);
        assert(is_digit(t[i - from]));
        let dv = (ch as u32 - '0' as u32) as u64;
        assert(dv <= 9);
        assert(t.subrange(0, i + 1 - from).drop_last() =~= t.subrange(0, i - from));
        if acc > (max - dv) / 10 {
            assert(acc * 10 + dv > max) by (nonlinear_arith)
                requires acc > (max - dv) / 10, dv <= 9, dv <= max || acc >= 0;
            proof { lemma_digits_value_prefix(t, i + 1 - from); }
            return None;
        }
        assert(acc * 10 + dv <= max) by (nonlinear_arith)
            requires acc <= (max - dv) / 10, dv <= max;
        acc = acc * 10 + dv;
        i = i + 1;
    }
    assert(t.subrange(0, n - from) =~= t);
    Some(acc)
}

/// Whether `s[from..]` is a nonempty string of digits.
fn digits_from(s: &str, from: usize) -> (r: bool)
    ensures
        r == (from < s@.len() && all_digits(s@.subrange(from as int, s@.len() as int))),
{
    let n = s.unicode_len();
    if from >= n {
        return false;
    }
    let mut i: usize = from;
    while i < n
        invariant
            n == s@.len(),
            from <= i <= n,
            forall|j: int| from <= j < i ==> is_digit(s@[j]),
        decreases n - i,
    {
        let ch = s.get_char(i);
        if !('0' <= ch && ch <= '9') {
            assert(!is_digit(s@.subrange(from as int, n as int)[i - from]));
            return false;
        }
        i = i + 1;
    }
    true
}

/// Unsigned magnitude with an optional `+`, at most `max`.
fn parse_unsigned(s: &str, max: u64) -> (r: Option<u64>)
    requires
        max >= 9,
    ensures
        r matches Some(x) ==> unsigned_value(s@) == Some(x as int) && x <= max,
        r is None ==> (unsigned_value(s@) is None || unsigned_value(s@)->0 > max),
{
    let n = s.unicode_len();
    let from: usize = if n > 0 && s.get_char(0) == '+' { 1 } else { 0 };
    let ghost t = if s@.len() > 0 && s@[0] == '+' { s@.drop_first() } else { s@ };
    assert(t =~= s@.subrange(from as int, s@.len() as int));
    if !digits_from(s, from) {
        return None;
    }
    digits_upto(s, from, max)
}

/// `str::parse::<u32>`.
pub fn parse_u32(s: &str) -> (r: Option<u32>)
    ensures
        r == parse_u32_spec(s@),
{
    match parse_unsigned(s, u32::MAX as u64) {
        Some(v) => {
            assert(unsigned_value(s@) == Some(v as int));
            Some(v as u32)
        },
        None => None,
    }
}

/// `str::parse::<u64>`.
pub fn parse_u64(s: &str) -> (r: Option<u64>)
    ensures
        r == parse_u64_spec(s@),
{
    parse_unsigned(s, u64::MAX)
}

/// `str::parse::<usize>`.
pub fn parse_usize(s: &str) -> (r: Option<usize>)
    ensures
        r == parse_usize_spec(s@),
{
    match parse_unsigned(s, usize::MAX as u64) {
        Some(v) => {
            assert(unsigned_value(s@) == Some(v as int));
            Some(v as usize)
        },
        None => None,
    }
}

/// `str::parse::<u8>`.
pub fn parse_u8(s: &str) -> (r: Option<u8>)
    ensures
        r == parse_u8_spec(s@),
{
    match parse_unsigned(s, u8::MAX as u64) {
        Some(v) => {
            assert(unsigned_value(s@) == Some(v as int));
            Some(v as u8)
        },
        None => None,
    }
}

/// `str::parse::<i32>`.
pub fn parse_i32(s: &str) -> (r: Option<i32>)
    ensures
        r == parse_i32_spec(s@),
{
    let n = s.unicode_len();
    if n > 0 && s.get_char(0) == '-' {
        assert(s@.drop_first() =~= s@.subrange(1, s@.len() as int));
        if !digits_from(s, 1) {
            return None;
        }
        match digits_upto(s, 1, 0x8000_0000u64) {
            Some(v) => {
                let neg: i64 = -(v as i64);
                Some(neg as i32)
            },
            None => None,
        }
    } else {
        assert(signed_value(s@) == unsigned_value(s@));
        match parse_unsigned(s, i32::MAX as u64) {
            Some(v) => {
                assert(unsigned_value(s@) == Some(v as int));
                Some(v as i32)
            },
            None => None,
        }
    }
}

/// Decimal digits of a natural number (no leading zeros; "0" for zero).
pub open spec fn decimal(n: nat) -> Seq<char>
    decreases n,
{
    if n < 10 {
        seq![(n + '0' as nat) as char]
    } else {
        decimal(n / 10).push(((n % 10) + '0' as nat) as char)
    }
}

/// `s` left-padded with `'0'` up to `width` characters.
pub open spec fn zero_pad(s: Seq<char>, width: nat) -> Seq<char> {
    if s.len() >= width {
        s
    } else {
        Seq::new((width - s.len()) as nat, |i: int| '0') + s
    }
}

/// `format!("{:0w$}", v)` for a signed value: the sign counts towards the
/// width and the zeros go after it.
pub open spec fn format_signed(v: int, width: nat) -> Seq<char> {
    if v < 0 {
        seq!['-'] + zero_pad(decimal((-v) as nat), if width > 0 { (width - 1) as nat } else { 0 })
    } else {
        zero_pad(decimal(v as nat), width)
    }
}

/// `String::push`.
#[verifier::external_body]
pub(crate) fn push_char(s: &mut String, c: char)
    ensures
        final(s)@ == old(s)@.push(c),
{
    s.push(c)
}

/// Appends the decimal digits of `n`.
pub fn push_decimal(out: &mut String, n: u64)
    ensures
        final(out)@ == old(out)@ + decimal(n as nat),
    decreases n,
{
    if n < 10 {
        push_char(out, ((n as u8) + 48u8) as char);
        assert(decimal(n as nat) =~= seq![((n as u8) + 48u8) as char]);
    } else {
        push_decimal(out, n / 10);
        push_char(out, (((n % 10) as u8) + 48u8) as char);
    }
}

proof fn lemma_decimal_len(n: nat)
    ensures
        decimal(n).len() >= 1,
        n < 10 ==> decimal(n).len() == 1,
        n < 100 ==> decimal(n).len() <= 2,
        n < 1000 ==> decimal(n).len() <= 3,
        n < 10000 ==> decimal(n).len() <= 4,
    decreases n,
{
    if n >= 10 {
        lemma_decimal_len(n / 10);
    }
}

/// Appends `n` in decimal, left-padded with zeros to `width` characters.
pub fn push_padded(out: &mut String, n: u64, width: usize)
    ensures
        final(out)@ == old(out)@ + zero_pad(decimal(n as nat), width as nat),
{
    let mut digits = String::new();
    push_decimal(&mut digits, n);
    assert(digits@ =~= decimal(n as nat));
    let len = digits.as_str().unicode_len();
    let pad: usize = if width > len { width - len } else { 0 };
    let ghost start = out@;
    let mut k: usize = 0;
    while k < pad
        invariant
            k <= pad,
            out@ == start + Seq::new(k as nat, |i: int| '0'),
        decreases pad - k,
    {
        push_char(out, '0');
        assert(Seq::new((k + 1) as nat, |i: int| '0') =~= Seq::new(k as nat, |i: int| '0').push('0'));
        k = k + 1;
    }
    out.append(digits.as_str());
    proof {
        if len >= width {
            assert(Seq::new(k as nat, |i: int| '0') =~= Seq::<char>::empty());
        }
    }
    assert(out@ =~= start + zero_pad(decimal(n as nat), width as nat));
}

/// Appends `format!("{:0w$}", v)` for a signed value.
pub fn push_signed_padded(out: &mut String, v: i64, width: usize)
    ensures
        final(out)@ == old(out)@ + format_signed(v as int, width as nat),
{
    if v < 0 {
        push_char(out, '-');
        let mag: u64 = if v == i64::MIN { 0x8000_0000_0000_0000u64 } else { (-v) as u64 };
        push_padded(out, mag, if width > 0 { width - 1 } else { 0 });
    } else {
        push_padded(out, v as u64, width);
    }
}

/// Whether two texts are equal.
pub fn str_eq(a: &str, b: &str) -> (r: bool)
    ensures
        r == (a@ == b@),
{
    let n = a.unicode_len();
    if n != b.unicode_len() {
        return false;
    }
    let mut i: usize = 0;
    while i < n
        invariant
            n == a@.len(),
            n == b@.len(),
            i <= n,
            forall|j: int| 0 <= j < i ==> a@[j] == b@[j],
        decreases n - i,
    {
        if a.get_char(i) != b.get_char(i) {
            return false;
        }
        i = i + 1;
    }
    assert(a@ =~= b@);
    true
}

pub proof fn lemma_index_of_bounds(s: Seq<char>, c: char)
    ensures
        0 <= index_of(s, c) <= s.len(),
    decreases s.len(),
{
    if s.len() > 0 && s[0] != c {
        lemma_index_of_bounds(s.drop_first(), c);
    }
}

/// `s` cut at every `c`, as `str::split` gives the pieces.
pub open spec fn split_all(s: Seq<char>, c: char) -> Seq<Seq<char>>
    decreases s.len(),
{
    let i = index_of(s, c);
    if 0 <= i < s.len() {
        seq![s.subrange(0, i)] + split_all(s.subrange(i + 1, s.len() as int), c)
    } else {
        seq![s]
    }
}

pub open spec fn strs_view<'a>(v: Seq<&'a str>) -> Seq<Seq<char>> {
    v.map_values(|x: &'a str| x@)
}

/// The pieces of `s` between the `c`s (`str::split`).
pub fn split_all_char<'a>(s: &'a str, c: char) -> (r: Vec<&'a str>)
    ensures
        strs_view(r@) == split_all(s@, c),
{
    let mut out: Vec<&'a str> = Vec::new();
    let mut rest: &'a str = s;
    assert(strs_view(out@) + split_all(rest@, c) =~= split_all(s@, c));
    loop
        invariant
            split_all(s@, c) == strs_view(out@) + split_all(rest@, c),
        decreases rest@.len(),
    {
        let ghost before = strs_view(out@);
        match split_once_char(rest, c) {
            Some((a, b)) => {
                proof { lemma_index_of_bounds(rest@, c); }
                out.push(a);
                assert(strs_view(out@) =~= before.push(a@));
                assert(split_all(rest@, c) =~= seq![a@] + split_all(b@, c));
                assert(strs_view(out@) + split_all(b@, c) =~= before + split_all(rest@, c));
                rest = b;
            },
            None => {
                out.push(rest);
                assert(strs_view(out@) =~= before.push(rest@));
                assert(split_all(rest@, c) =~= seq![rest@]);
                assert(strs_view(out@) =~= before + split_all(rest@, c));
                return out;
            },
        }
    }
}

/// `p` occurs in `s` at `i`.
pub open spec fn occurs_at(s: Seq<char>, p: Seq<char>, i: int) -> bool {
    0 <= i && i + p.len() <= s.len() && s.subrange(i, i + p.len()) == p
}

/// `str::contains` with a text pattern.
pub open spec fn contains_spec(s: Seq<char>, p: Seq<char>) -> bool {
    exists|i: int| #[trigger] occurs_at(s, p, i)
}

/// `str::ends_with`.
pub open spec fn ends_with_spec(s: Seq<char>, p: Seq<char>) -> bool {
    p.len() <= s.len() && s.subrange(s.len() - p.len(), s.len() as int) == p
}

/// `str::starts_with`.
pub open spec fn starts_with_spec(s: Seq<char>, p: Seq<char>) -> bool {
    p.len() <= s.len() && s.subrange(0, p.len() as int) == p
}

/// First position where `p` occurs in `s`, if any.
pub open spec fn first_occurrence(s: Seq<char>, p: Seq<char>) -> Option<int> {
    if contains_spec(s, p) {
        Some(choose|i: int| occurs_at(s, p, i) && forall|j: int| 0 <= j < i ==> !occurs_at(s, p, j))
    } else {
        None
    }
}

fn occurs_at_exec(s: &str, p: &str, i: usize) -> (r: bool)
    requires
        i + p@.len() <= s@.len(),
    ensures
        r == occurs_at(s@, p@, i as int),
{
    let m = p.unicode_len();
    let n = s.unicode_len();
    let mut k: usize = 0;
    while k < m
        invariant
            m == p@.len(),
            n == s@.len(),
            i + m <= s@.len(),
            k <= m,
            forall|j: int| 0 <= j < k ==> s@[i + j] == p@[j],
        decreases m - k,
    {
        if s.get_char(i + k) != p.get_char(k) {
            assert(s@.subrange(i as int, i + m)[k as int] != p@[k as int]);
            return false;
        }
        k = k + 1;
    }
    assert(s@.subrange(i as int, i + m) =~= p@);
    true
}

/// First position of `p` in `s` (`str::find`).
pub fn find_sub(s: &str, p: &str) -> (r: Option<usize>)
    ensures
        match r {
            Some(i) => first_occurrence(s@, p@) == Some(i as int) && occurs_at(s@, p@, i as int)
                && forall|j: int| 0 <= j < i ==> !occurs_at(s@, p@, j),
            None => first_occurrence(s@, p@) is None && !contains_spec(s@, p@),
        },
{
    let n = s.unicode_len();
    let m = p.unicode_len();
    if m > n {
        assert(!contains_spec(s@, p@));
        return None;
    }
    if m == 0 {
        proof {
            assert(s@.subrange(0, 0) =~= p@);
            assert(occurs_at(s@, p@, 0));
            let c = choose|c: int| occurs_at(s@, p@, c) && forall|j: int| 0 <= j < c ==> !occurs_at(s@, p@, j);
            assert(occurs_at(s@, p@, 0) && forall|j: int| 0 <= j < 0 ==> !occurs_at(s@, p@, j));
            if c > 0 { assert(!occurs_at(s@, p@, 0)); }
        }
        return Some(0);
    }
    let mut i: usize = 0;
    while i <= n - m
        invariant
            n == s@.len(),
            m == p@.len(),
            1 <= m <= n,
            i <= n - m + 1,
            forall|j: int| 0 <= j < i ==> !occurs_at(s@, p@, j),
        decreases n - m + 1 - i,
    {
        if occurs_at_exec(s, p, i) {
            proof {
                assert(contains_spec(s@, p@));
                let c = choose|c: int| occurs_at(s@, p@, c) && forall|j: int| 0 <= j < c ==> !occurs_at(s@, p@, j);
                assert(occurs_at(s@, p@, i as int) && forall|j: int| 0 <= j < i ==> !occurs_at(s@, p@, j));
                if c < i { assert(!occurs_at(s@, p@, c)); }
                if c > i { assert(!occurs_at(s@, p@, i as int)); }
            }
            return Some(i);
        }
        i = i + 1;
    }
    assert forall|j: int| !occurs_at(s@, p@, j) by {
        if 0 <= j && j + m <= n { assert(j < i); }
    }
    None
}

/// Whether `p` occurs in `s`.
pub fn contains_str(s: &str, p: &str) -> (r: bool)
    ensures
        r == contains_spec(s@, p@),
{
    match find_sub(s, p) {
        Some(i) => true,
        None => false,
    }
}

/// Whether `s` ends with `p`.
pub fn ends_with_str(s: &str, p: &str) -> (r: bool)
    ensures
        r == ends_with_spec(s@, p@),
{
    let n = s.unicode_len();
    let m = p.unicode_len();
    if m > n {
        return false;
    }
    let r = occurs_at_exec(s, p, n - m);
    r
}

/// Whether `s` starts with `p`.
pub fn starts_with_str(s: &str, p: &str) -> (r: bool)
    ensures
        r == starts_with_spec(s@, p@),
{
    let n = s.unicode_len();
    let m = p.unicode_len();
    if m > n {
        return false;
    }
    occurs_at_exec(s, p, 0)
}

/// The decimal digits of `n` are digits, at least one, worth `n`.
pub proof fn lemma_decimal(n: nat)
    ensures
        all_digits(decimal(n)),
        decimal(n).len() >= 1,
        digits_value(decimal(n)) == n,
    decreases n,
{
    if n >= 10 {
        lemma_decimal(n / 10);
        let d = decimal(n);
        assert(d.drop_last() =~= decimal(n / 10));
        assert forall|i: int| 0 <= i < d.len() implies is_digit(#[trigger] d[i]) by {
            if i < d.len() - 1 {
                assert(d[i] == decimal(n / 10)[i]);
            }
        }
    } else {
        assert(digits_value(decimal(n).drop_last()) == 0);
    }
}

/// Leading zeros add nothing to the value of a digit string.
pub proof fn lemma_leading_zeros(k: nat, b: Seq<char>)
    ensures
        digits_value(Seq::new(k, |i: int| '0') + b) == digits_value(b),
    decreases b.len(), k,
{
    let z = Seq::new(k, |i: int| '0');
    if b.len() == 0 {
        assert(z + b =~= z);
        if k > 0 {
            lemma_leading_zeros((k - 1) as nat, b);
            assert(z.drop_last() =~= Seq::new((k - 1) as nat, |i: int| '0'));
            assert(Seq::new((k - 1) as nat, |i: int| '0') + b =~= Seq::new((k - 1) as nat, |i: int| '0'));
        }
    } else {
        lemma_leading_zeros(k, b.drop_last());
        assert((z + b).drop_last() =~= z + b.drop_last());
    }
}

/// A zero-padded digit string is a digit string of the same value.
pub proof fn lemma_zero_pad(s: Seq<char>, w: nat)
    requires
        all_digits(s),
        s.len() >= 1,
    ensures
        all_digits(zero_pad(s, w)),
        zero_pad(s, w).len() >= 1,
        digits_value(zero_pad(s, w)) == digits_value(s),
        zero_pad(s, w)[0] != '+' && zero_pad(s, w)[0] != '-',
{
    if s.len() < w {
        let k = (w - s.len()) as nat;
        lemma_leading_zeros(k, s);
        let p = zero_pad(s, w);
        assert forall|i: int| 0 <= i < p.len() implies is_digit(#[trigger] p[i]) by {
            if i >= k { assert(p[i] == s[i - k]); }
        }
        assert(is_digit(p[0]));
    } else {
        assert(is_digit(s[0]));
    }
}

/// A non-empty digit string parses as its value.
pub proof fn lemma_digits_parse(s: Seq<char>)
    requires
        all_digits(s),
        s.len() >= 1,
    ensures
        unsigned_value(s) == Some(digits_value(s)),
        signed_value(s) == Some(digits_value(s)),
        digits_value(s) >= 0,
{
    assert(is_digit(s[0]));
    lemma_digits_value_nonneg(s);
}

/// In `a + [c] + b` with no `c` in `a`, the first `c` is the one after `a`.
pub proof fn lemma_split_at(a: Seq<char>, c: char, b: Seq<char>)
    requires
        forall|i: int| 0 <= i < a.len() ==> a[i] != c,
    ensures
        split_once(a + seq![c] + b, c) == Some((a, b)),
{
    let s = a + seq![c] + b;
    assert forall|j: int| 0 <= j < a.len() implies s[j] != c by {
        assert(s[j] == a[j]);
    }
    lemma_index_of(s, c, a.len() as int);
    assert(s.subrange(0, a.len() as int) =~= a);
    assert(s.subrange(a.len() as int + 1, s.len() as int) =~= b);
}

/// Unicode white space (`char::is_whitespace`).
pub open spec fn is_space(c: char) -> bool {
    let u = c as u32;
    ||| 0x09 <= u <= 0x0d
    ||| u == 0x20 || u == 0x85 || u == 0xa0 || u == 0x1680
    ||| 0x2000 <= u <= 0x200a
    ||| u == 0x2028 || u == 0x2029 || u == 0x202f || u == 0x205f || u == 0x3000
}

/// Whether `c` is white space.
pub fn space(c: char) -> (r: bool)
    ensures
        r == is_space(c),
{
    let u = c as u32;
    (0x09 <= u && u <= 0x0d) || u == 0x20 || u == 0x85 || u == 0xa0 || u == 0x1680
        || (0x2000 <= u && u <= 0x200a) || u == 0x2028 || u == 0x2029 || u == 0x202f
        || u == 0x205f || u == 0x3000
}

/// Leading white space dropped (`str::trim_start`).
pub open spec fn trim_start(s: Seq<char>) -> Seq<char>
    decreases s.len(),
{
    if s.len() > 0 && is_space(s[0]) { trim_start(s.drop_first()) } else { s }
}

/// Trailing white space dropped (`str::trim_end`).
pub open spec fn trim_end(s: Seq<char>) -> Seq<char>
    decreases s.len(),
{
    if s.len() > 0 && is_space(s.last()) { trim_end(s.drop_last()) } else { s }
}

/// White space dropped at both ends (`str::trim`).
pub open spec fn trim(s: Seq<char>) -> Seq<char> {
    trim_end(trim_start(s))
}

proof fn lemma_trim_start_skip(s: Seq<char>, a: int)
    requires
        0 <= a <= s.len(),
        forall|j: int| 0 <= j < a ==> is_space(#[trigger] s[j]),
    ensures
        trim_start(s) == trim_start(s.skip(a)),
    decreases a,
{
    if a > 0 {
        assert(s.skip(1) =~= s.drop_first());
        lemma_trim_start_skip(s.drop_first(), a - 1);
        assert(s.drop_first().skip(a - 1) =~= s.skip(a));
    } else {
        assert(s.skip(0) =~= s);
    }
}

pub proof fn lemma_trim_end_take(s: Seq<char>, b: int)
    requires
        0 <= b <= s.len(),
        forall|j: int| b <= j < s.len() ==> is_space(#[trigger] s[j]),
    ensures
        trim_end(s) == trim_end(s.take(b)),
    decreases s.len() - b,
{
    if b < s.len() {
        assert(s.take(s.len() - 1) =~= s.drop_last());
        lemma_trim_end_take(s.drop_last(), b);
        assert(s.drop_last().take(b) =~= s.take(b));
    } else {
        assert(s.take(b) =~= s);
    }
}

/// `s` with white space dropped at both ends.
pub fn trim_text(s: &str) -> (r: String)
    ensures
        r@ == trim(s@),
{
    let n = s.unicode_len();
    let mut a: usize = 0;
    while a < n && space(s.get_char(a))
        invariant
            n == s@.len(),
            a <= n,
            forall|j: int| 0 <= j < a ==> is_space(#[trigger] s@[j]),
        decreases n - a,
    {
        a = a + 1;
    }
    proof { lemma_trim_start_skip(s@, a as int); }
    let ghost t = s@.skip(a as int);
    assert(a < n ==> !is_space(t[0]));
    let mut b: usize = n;
    while b > a && space(s.get_char(b - 1))
        invariant
            n == s@.len(),
            a <= b <= n,
            forall|j: int| b <= j < n ==> is_space(#[trigger] s@[j]),
        decreases b - a,
    {
        b = b - 1;
    }
    proof {
        let u = t.take(b - a);
        assert forall|j: int| b - a <= j < t.len() implies is_space(#[trigger] t[j]) by {
            assert(t[j] == s@[a + j]);
        }
        lemma_trim_end_take(t, b - a);
        if b > a {
            assert(u.last() == s@[b - 1]);
        }
        assert(trim_start(t) == t);
        assert(trim_end(u) == u);
    }
    let mut out = String::new();
    let mut i: usize = a;
    while i < b
        invariant
            n == s@.len(),
            a <= i <= b <= n,
            out@ == s@.subrange(a as int, i as int),
        decreases b - i,
    {
        let c = s.get_char(i);
        push_char(&mut out, c);
        proof { assert(s@.subrange(a as int, i + 1) =~= s@.subrange(a as int, i as int).push(c)); }
        i = i + 1;
    }
    proof { assert(out@ =~= s@.skip(a as int).take(b - a)); }
    out
}

} // verus!

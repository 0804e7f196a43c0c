//! Character-level text handling: whitespace, trimming, searching, splitting
//! and the parsing of integers, as Rust's `str` methods define them.
use vstd::prelude::*;

verus! {

/// The Unicode White_Space characters, which `char::is_whitespace` accepts.
pub open spec fn is_ws(c: char) -> bool {
    let u = c as u32;
    (0x9 <= u <= 0xd) || u == 0x20 || u == 0x85 || u == 0xa0 || u == 0x1680
        || (0x2000 <= u <= 0x200a) || u == 0x2028 || u == 0x2029 || u == 0x202f
        || u == 0x205f || u == 0x3000
}

pub fn is_whitespace(c: char) -> (r: bool)
    ensures
        r == is_ws(c),
{
    let u = c as u32;
    (0x9 <= u && u <= 0xd) || u == 0x20 || u == 0x85 || u == 0xa0 || u == 0x1680
        || (0x2000 <= u && u <= 0x200a) || u == 0x2028 || u == 0x2029 || u == 0x202f
        || u == 0x205f || u == 0x3000
}

/// `s` without leading whitespace.
pub open spec fn trim_start(s: Seq<char>) -> Seq<char>
    decreases s.len(),
{
    if s.len() > 0 && is_ws(s[0]) { trim_start(s.drop_first()) } else { s }
}

/// `s` without trailing whitespace.
pub open spec fn trim_end(s: Seq<char>) -> Seq<char>
    decreases s.len(),
{
    if s.len() > 0 && is_ws(s.last()) { trim_end(s.drop_last()) } else { s }
}

/// `s` without leading and trailing whitespace.
pub open spec fn trim(s: Seq<char>) -> Seq<char> {
    trim_end(trim_start(s))
}

/// The index of the first `c` in `s`.
pub open spec fn find(s: Seq<char>, c: char) -> Option<int>
    decreases s.len(),
{
    if s.len() == 0 {
        None
    } else if s[0] == c {
        Some(0)
    } else {
        match find(s.drop_first(), c) {
            Some(i) => Some(i + 1),
            None => None,
        }
    }
}

/// The index of the first whitespace character in `s`.
pub open spec fn find_ws(s: Seq<char>) -> Option<int>
    decreases s.len(),
{
    if s.len() == 0 {
        None
    } else if is_ws(s[0]) {
        Some(0)
    } else {
        match find_ws(s.drop_first()) {
            Some(i) => Some(i + 1),
            None => None,
        }
    }
}

/// The pieces of `s` between occurrences of `c`, as `str::split` gives them.
pub open spec fn split(s: Seq<char>, c: char) -> Seq<Seq<char>>
    decreases s.len(),
{
    match find(s, c) {
        None => seq![s],
        Some(i) => {
            proof { lemma_find_bounds(s, c); }
            seq![s.take(i)] + split(s.skip(i + 1), c)
        },
    }
}

/// At most `n` pieces of `s` between occurrences of `c`, the last holding the
/// rest, as `str::splitn` gives them.
pub open spec fn splitn(s: Seq<char>, n: nat, c: char) -> Seq<Seq<char>>
    decreases s.len(),
{
    if n <= 1 {
        seq![s]
    } else {
        match find(s, c) {
            None => seq![s],
            Some(i) => {
                proof { lemma_find_bounds(s, c); }
                seq![s.take(i)] + splitn(s.skip(i + 1), (n - 1) as nat, c)
            },
        }
    }
}

pub proof fn lemma_find_bounds(s: Seq<char>, c: char)
    ensures
        find(s, c) matches Some(i) ==> 0 <= i < s.len() && s[i] == c && forall|j: int| 0 <= j < i ==> s[j] != c,
        find(s, c) is None ==> forall|j: int| 0 <= j < s.len() ==> s[j] != c,
    decreases s.len(),
{
    if s.len() > 0 {
        lemma_find_bounds(s.drop_first(), c);
        if s[0] != c {
            assert forall|j: int| 1 <= j < s.len() implies s[j] == s.drop_first()[j - 1] by {}
        }
    }
}

/// A search from `start` finds what a search of the rest of `s` finds.
pub proof fn lemma_find_from(s: Seq<char>, c: char, start: int, j: int)
    requires
        0 <= start <= j <= s.len(),
        forall|k: int| start <= k < j ==> s[k] != c,
    ensures
        j < s.len() && s[j] == c ==> find(s.subrange(start, s.len() as int), c) == Some(j - start),
        j == s.len() ==> find(s.subrange(start, s.len() as int), c) is None,
    decreases j - start,
{
    let t = s.subrange(start, s.len() as int);
    if start < j {
        lemma_find_from(s, c, start + 1, j);
        assert(t.drop_first() =~= s.subrange(start + 1, s.len() as int));
    } else if j < s.len() {
    }
}

pub proof fn lemma_find_ws_bounds(s: Seq<char>)
    ensures
        find_ws(s) matches Some(i) ==> 0 <= i < s.len() && is_ws(s[i]) && forall|j: int| 0 <= j < i ==> !is_ws(s[j]),
        find_ws(s) is None ==> forall|j: int| 0 <= j < s.len() ==> !is_ws(s[j]),
    decreases s.len(),
{
    if s.len() > 0 {
        lemma_find_ws_bounds(s.drop_first());
        if !is_ws(s[0]) {
            assert forall|j: int| 1 <= j < s.len() implies s[j] == s.drop_first()[j - 1] by {}
        }
    }
}

/// Copies `v[a..b]`.
pub fn slice(v: &Vec<char>, a: usize, b: usize) -> (r: Vec<char>)
    requires
        a <= b <= v@.len(),
    ensures
        r@ == v@.subrange(a as int, b as int),
{
    let mut r: Vec<char> = Vec::new();
    let mut i = a;
    while i < b
        invariant
            a <= i <= b <= v@.len(),
            r@ == v@.subrange(a as int, i as int),
        decreases b - i,
    {
        r.push(v[i]);
        i = i + 1;
        assert(r@ =~= v@.subrange(a as int, i as int));
    }
    r
}

proof fn lemma_trim_start_skip(s: Seq<char>, i: int)
    requires
        0 <= i <= s.len(),
        forall|k: int| 0 <= k < i ==> is_ws(s[k]),
    ensures
        trim_start(s) == trim_start(s.subrange(i, s.len() as int)),
    decreases i,
{
    if i > 0 {
        assert(s.drop_first() =~= s.subrange(1, s.len() as int));
        lemma_trim_start_skip(s.drop_first(), i - 1);
        assert(s.drop_first().subrange(i - 1, s.drop_first().len() as int) =~= s.subrange(i, s.len() as int));
        assert(is_ws(s[0]));
        assert(trim_start(s) == trim_start(s.drop_first()));
    } else {
        assert(s.subrange(0, s.len() as int) =~= s);
    }
}

proof fn lemma_trim_end_take(s: Seq<char>, j: int)
    requires
        0 <= j <= s.len(),
        forall|k: int| j <= k < s.len() ==> is_ws(s[k]),
    ensures
        trim_end(s) == trim_end(s.subrange(0, j)),
    decreases s.len() - j,
{
    if j < s.len() {
        assert(s.drop_last() =~= s.subrange(0, s.len() - 1));
        lemma_trim_end_take(s.drop_last(), j);
        assert(s.drop_last().subrange(0, j) =~= s.subrange(0, j));
        assert(is_ws(s.last()));
        assert(trim_end(s) == trim_end(s.drop_last()));
    } else {
        assert(s.subrange(0, j) =~= s);
    }
}

/// `s` without leading and trailing whitespace.
pub fn trim_chars(s: &Vec<char>) -> (r: Vec<char>)
    ensures
        r@ == trim(s@),
{
    let n = s.len();
    let mut a: usize = 0;
    while a < n && is_whitespace(s[a])
        invariant
            a <= n == s@.len(),
            forall|k: int| 0 <= k < a ==> is_ws(s@[k]),
        decreases n - a,
    {
        a = a + 1;
    }
    proof {
        lemma_trim_start_skip(s@, a as int);
    }
    let ghost t = s@.subrange(a as int, n as int);
    let mut b: usize = n;
    while b > a && is_whitespace(s[b - 1])
        invariant
            a <= b <= n == s@.len(),
            t == s@.subrange(a as int, n as int),
            forall|k: int| b <= k < n ==> is_ws(s@[k]),
        decreases b - a,
    {
        b = b - 1;
    }
    proof {
        lemma_trim_end_take(t, b - a);
        assert(t.subrange(0, b - a) =~= s@.subrange(a as int, b as int));
        if a < n {
            assert(!is_ws(s@[a as int]));
            assert(t.len() > 0 && !is_ws(t[0]));
        }
        assert(trim_start(t) == t);
    }
    slice(s, a, b)
}

/// The index of the first `c` in `s`.
pub fn find_char(s: &Vec<char>, c: char) -> (r: Option<usize>)
    ensures
        r matches Some(i) ==> find(s@, c) == Some(i as int),
        r is None ==> find(s@, c) is None,
{
    let mut i: usize = 0;
    while i < s.len()
        invariant
            i <= s@.len(),
            forall|k: int| 0 <= k < i ==> s@[k] != c,
        decreases s@.len() - i,
    {
        if s[i] == c {
            proof {
                lemma_find_from(s@, c, 0, i as int);
                assert(s@.subrange(0, s@.len() as int) =~= s@);
            }
            return Some(i);
        }
        i = i + 1;
    }
    proof {
        lemma_find_from(s@, c, 0, i as int);
        assert(s@.subrange(0, s@.len() as int) =~= s@);
    }
    None
}

/// Whether two character sequences are equal.
pub fn chars_eq(a: &[char], b: &[char]) -> (r: bool)
    ensures
        r == (a@ == b@),
{
    if a.len() != b.len() {
        return false;
    }
    let mut i: usize = 0;
    while i < a.len()
        invariant
            a@.len() == b@.len(),
            i <= a@.len(),
            forall|k: int| 0 <= k < i ==> a@[k] == b@[k],
        decreases a@.len() - i,
    {
        if a[i] != b[i] {
            return false;
        }
        i = i + 1;
    }
    assert(a@ =~= b@);
    true
}

/// The characters of `s`.
pub fn to_chars(s: &str) -> (r: Vec<char>)
    ensures
        r@ == s@,
{
    let mut out: Vec<char> = Vec::new();
    for c in it: s.chars()
        invariant
            out@ == it.seq().take(it.index() as int),
    {
        out.push(c);
    }
    out
}


// ── Integers ────────────────────────────────────────────────────────────────

/// The value of `c` as a digit in base `radix`, letters counting from ten in
/// either case, as `char::to_digit` reads it; `None` if it is no such digit.
pub open spec fn digit_value(c: char, radix: int) -> Option<int> {
    let u = c as u32;
    let v: int = if 48 <= u <= 57 {
        u - 48
    } else if 97 <= u <= 122 {
        u - 97 + 10
    } else if 65 <= u <= 90 {
        u - 65 + 10
    } else {
        radix
    };
    if v < radix { Some(v) } else { None }
}

/// Every character of `s` is a digit in base `radix`.
pub open spec fn all_digits(s: Seq<char>, radix: int) -> bool {
    forall|i: int| 0 <= i < s.len() ==> #[trigger] digit_value(s[i], radix) is Some
}

/// The number that the digits `s` spell in base `radix`, most significant first.
pub open spec fn digits_value(s: Seq<char>, radix: int) -> int
    decreases s.len(),
{
    if s.len() == 0 {
        0
    } else {
        let d = match digit_value(s.last(), radix) {
            Some(v) => v,
            None => 0,
        };
        digits_value(s.drop_last(), radix) * radix + d
    }
}

/// An optional sign and the digits after it: a lone sign is refused, and `-`
/// is a sign only for signed types (for the others it is a bad digit).
pub open spec fn sign_and_digits(s: Seq<char>, signed: bool) -> Option<(bool, Seq<char>)> {
    if s.len() == 0 {
        None
    } else if (s[0] == '+' || s[0] == '-') && s.len() == 1 {
        None
    } else if s[0] == '+' {
        Some((false, s.drop_first()))
    } else if s[0] == '-' && signed {
        Some((true, s.drop_first()))
    } else {
        Some((false, s))
    }
}

/// What `from_str_radix` gives for an integer type whose values are `lo..=hi`.
pub open spec fn parse_int(s: Seq<char>, radix: int, signed: bool, lo: int, hi: int) -> Option<int> {
    match sign_and_digits(s, signed) {
        None => None,
        Some((neg, d)) => {
            if all_digits(d, radix) {
                let v = if neg { -digits_value(d, radix) } else { digits_value(d, radix) };
                if lo <= v <= hi { Some(v) } else { None }
            } else {
                None
            }
        },
    }
}

/// What `str::parse::<u8>` gives.
pub open spec fn spec_parse_u8(s: Seq<char>) -> Option<int> {
    parse_int(s, 10, false, 0, 255)
}

/// What `str::parse::<i32>` gives.
pub open spec fn spec_parse_i32(s: Seq<char>) -> Option<int> {
    parse_int(s, 10, true, -0x8000_0000, 0x7fff_ffff)
}

/// What `i32::from_str_radix(s, 16)` gives.
pub open spec fn spec_parse_i32_hex(s: Seq<char>) -> Option<int> {
    parse_int(s, 16, true, -0x8000_0000, 0x7fff_ffff)
}

proof fn lemma_digits_nonneg(s: Seq<char>, radix: int)
    requires
        radix >= 2,
        all_digits(s, radix),
    ensures
        digits_value(s, radix) >= 0,
    decreases s.len(),
{
    if s.len() > 0 {
        let t = s.drop_last();
        assert forall|i: int| 0 <= i < t.len() implies #[trigger] digit_value(t[i], radix) is Some by {
            assert(t[i] == s[i]);
        }
        lemma_digits_nonneg(t, radix);
        let v = digits_value(t, radix);
        assert(digit_value(s[s.len() - 1], radix) is Some);
        assert(v * radix >= 0) by (nonlinear_arith)
            requires
                v >= 0,
                radix >= 2,
        ;
    }
}

/// A prefix of a digit string never spells more than the whole.
proof fn lemma_digits_prefix_le(s: Seq<char>, radix: int, i: int)
    requires
        radix >= 2,
        all_digits(s, radix),
        0 <= i <= s.len(),
    ensures
        0 <= digits_value(s.take(i), radix) <= digits_value(s, radix),
    decreases s.len(),
{
    if i == s.len() {
        assert(s.take(i) =~= s);
        lemma_digits_nonneg(s, radix);
    } else {
        let t = s.drop_last();
        assert forall|k: int| 0 <= k < t.len() implies #[trigger] digit_value(t[k], radix) is Some by {
            assert(t[k] == s[k]);
        }
        lemma_digits_prefix_le(t, radix, i);
        assert(t.take(i) =~= s.take(i));
        let v = digits_value(t, radix);
        assert(digit_value(s[s.len() - 1], radix) is Some);
        assert(v <= v * radix) by (nonlinear_arith)
            requires
                v >= 0,
                radix >= 2,
        ;
    }
}

/// The value of `c` as a digit in base `radix`.
fn digit_of(c: char, radix: u32) -> (r: Option<u32>)
    requires
        2 <= radix <= 36,
    ensures
        r matches Some(v) ==> digit_value(c, radix as int) == Some(v as int),
        r is None ==> digit_value(c, radix as int) is None,
{
    let u = c as u32;
    let v: u32 = if 48 <= u && u <= 57 {
        u - 48
    } else if 97 <= u && u <= 122 {
        u - 97 + 10
    } else if 65 <= u && u <= 90 {
        u - 65 + 10
    } else {
        radix
    };
    if v < radix { Some(v) } else { None }
}

/// The value of the digits `d` in base `radix`, if they are all digits and it
/// is at most `limit`.
fn digits_up_to(d: &Vec<char>, radix: u32, limit: i64) -> (r: Option<i64>)
    requires
        2 <= radix <= 36,
        0 <= limit <= 0x1_0000_0000,
    ensures
        r matches Some(v) ==> all_digits(d@, radix as int) && v == digits_value(d@, radix as int)
            && 0 <= v <= limit,
        r is None ==> !all_digits(d@, radix as int) || digits_value(d@, radix as int) > limit,
{
    let mut v: i64 = 0;
    let mut i: usize = 0;
    while i < d.len()
        invariant
            2 <= radix <= 36,
            0 <= limit <= 0x1_0000_0000,
            i <= d@.len(),
            forall|k: int| 0 <= k < i ==> #[trigger] digit_value(d@[k], radix as int) is Some,
            v == digits_value(d@.take(i as int), radix as int),
            0 <= v <= limit,
        decreases d@.len() - i,
    {
        match digit_of(d[i], radix) {
            None => {
                return None;
            },
            Some(dv) => {
                proof {
                    let t = d@.take(i as int + 1);
                    assert(t.drop_last() =~= d@.take(i as int));
                    assert(t.last() == d@[i as int]);
                    assert(v * radix <= 0x1_0000_0000 * 36) by (nonlinear_arith)
                        requires
                            0 <= v <= 0x1_0000_0000,
                            radix <= 36,
                    ;
                }
                v = v * (radix as i64) + (dv as i64);
                i = i + 1;
                if v > limit {
                    proof {
                        if all_digits(d@, radix as int) {
                            lemma_digits_prefix_le(d@, radix as int, i as int);
                        }
                    }
                    return None;
                }
            },
        }
    }
    assert(d@.take(i as int) =~= d@);
    Some(v)
}

/// `s` parsed as an integer of base `radix` whose values are `lo..=hi`, as
/// `from_str_radix` parses it.
fn parse_int_chars(s: &Vec<char>, radix: u32, signed: bool, lo: i64, hi: i64) -> (r: Option<i64>)
    requires
        2 <= radix <= 36,
        -0x8000_0000 <= lo <= 0 <= hi <= 0xffff_ffff,
    ensures
        r matches Some(v) ==> parse_int(s@, radix as int, signed, lo as int, hi as int) == Some(v as int),
        r is None ==> parse_int(s@, radix as int, signed, lo as int, hi as int) is None,
{
    let n = s.len();
    if n == 0 {
        return None;
    }
    let c0 = s[0];
    if (c0 == '+' || c0 == '-') && n == 1 {
        return None;
    }
    let neg = c0 == '-' && signed;
    let d = if c0 == '+' || neg { slice(s, 1, n) } else { slice(s, 0, n) };
    proof {
        assert(s@.drop_first() =~= s@.subrange(1, n as int));
        assert(s@ =~= s@.subrange(0, n as int));
    }
    let limit: i64 = if neg { -lo } else { hi };
    match digits_up_to(&d, radix, limit) {
        None => None,
        Some(v) => if neg { Some(-v) } else { Some(v) },
    }
}

/// `s` parsed as a `u8`, as `str::parse::<u8>` parses it.
pub fn parse_u8(s: &Vec<char>) -> (r: Option<u8>)
    ensures
        r matches Some(v) ==> spec_parse_u8(s@) == Some(v as int),
        r is None ==> spec_parse_u8(s@) is None,
{
    match parse_int_chars(s, 10, false, 0, 255) {
        Some(v) => Some(v as u8),
        None => None,
    }
}

/// `s` parsed as an `i32`, as `str::parse::<i32>` parses it.
pub fn parse_i32(s: &Vec<char>) -> (r: Option<i32>)
    ensures
        r matches Some(v) ==> spec_parse_i32(s@) == Some(v as int),
        r is None ==> spec_parse_i32(s@) is None,
{
    match parse_int_chars(s, 10, true, -0x8000_0000, 0x7fff_ffff) {
        Some(v) => Some(v as i32),
        None => None,
    }
}

/// `s` parsed as hexadecimal digits of an `i32`, as `i32::from_str_radix(s, 16)`
/// parses it.
pub fn parse_i32_hex(s: &Vec<char>) -> (r: Option<i32>)
    ensures
        r matches Some(v) ==> spec_parse_i32_hex(s@) == Some(v as int),
        r is None ==> spec_parse_i32_hex(s@) is None,
{
    match parse_int_chars(s, 16, true, -0x8000_0000, 0x7fff_ffff) {
        Some(v) => Some(v as i32),
        None => None,
    }
}

/// `String::push`: appends `c` to `s`.
#[verifier::external_body]
fn push_char(s: &mut String, c: char)
    ensures
        final(s)@ == old(s)@.push(c),
{
    s.push(c);
}

/// A `String` holding the characters `chars`.
pub fn string_of(chars: &Vec<char>) -> (s: String)
    ensures
        s@ == chars@,
{
    let mut s = String::new();
    let mut i: usize = 0;
    while i < chars.len()
        invariant
            i <= chars@.len(),
            s@ == chars@.take(i as int),
        decreases chars@.len() - i,
    {
        push_char(&mut s, chars[i]);
        i = i + 1;
        assert(s@ =~= chars@.take(i as int));
    }
    assert(chars@.take(i as int) =~= chars@);
    s
}


/// The pieces of `s` between occurrences of `c`.
pub fn split_chars(s: &Vec<char>, c: char) -> (r: Vec<Vec<char>>)
    ensures
        r.deep_view() == split(s@, c),
{
    let mut out: Vec<Vec<char>> = Vec::new();
    let mut rest = slice(s, 0, s.len());
    assert(rest@ =~= s@);
    loop
        invariant_except_break
            split(s@, c) == out.deep_view() + split(rest@, c),
        ensures
            out.deep_view() == split(s@, c),
        decreases rest@.len(),
    {
        let n = rest.len();
        match find_char(&rest, c) {
            None => {
                let last = slice(&rest, 0, n);
                proof {
                    assert(last@ =~= rest@);
                    assert(last.deep_view() =~= last@);
                }
                let ghost before = out.deep_view();
                out.push(last);
                proof {
                    assert(out.deep_view() =~= before.push(rest@));
                    assert(split(rest@, c) == seq![rest@]);
                    assert(before + seq![rest@] =~= before.push(rest@));
                }
                break;
            },
            Some(i) => {
                proof {
                    lemma_find_bounds(rest@, c);
                }
                let head = slice(&rest, 0, i);
                let tail = slice(&rest, i + 1, n);
                proof {
                    assert(head.deep_view() =~= head@);
                }
                let ghost before = out.deep_view();
                let ghost old_rest = rest@;
                out.push(head);
                rest = tail;
                proof {
                    assert(out.deep_view() =~= before.push(old_rest.take(i as int)));
                    assert(old_rest.take(i as int) =~= old_rest.subrange(0, i as int));
                    assert(rest@ =~= old_rest.skip(i as int + 1));
                    assert(split(old_rest, c) == seq![old_rest.take(i as int)] + split(rest@, c));
                    assert(before + (seq![old_rest.take(i as int)] + split(rest@, c))
                        =~= before.push(old_rest.take(i as int)) + split(rest@, c));
                }
            },
        }
    }
    out
}


/// At most `n` pieces of `s` between occurrences of `c`, the last holding the rest.
pub fn splitn_chars(s: &Vec<char>, n: usize, c: char) -> (r: Vec<Vec<char>>)
    ensures
        r.deep_view() == splitn(s@, n as nat, c),
{
    let mut out: Vec<Vec<char>> = Vec::new();
    let mut rest = slice(s, 0, s.len());
    let mut k: usize = n;
    assert(rest@ =~= s@);
    loop
        invariant_except_break
            splitn(s@, n as nat, c) == out.deep_view() + splitn(rest@, k as nat, c),
        ensures
            out.deep_view() == splitn(s@, n as nat, c),
        decreases rest@.len(),
    {
        let len = rest.len();
        let found = if k <= 1 { None } else { find_char(&rest, c) };
        match found {
            None => {
                let last = slice(&rest, 0, len);
                proof {
                    assert(last@ =~= rest@);
                    assert(last.deep_view() =~= last@);
                }
                let ghost before = out.deep_view();
                out.push(last);
                proof {
                    assert(out.deep_view() =~= before.push(rest@));
                    assert(splitn(rest@, k as nat, c) == seq![rest@]);
                    assert(before + seq![rest@] =~= before.push(rest@));
                }
                break;
            },
            Some(i) => {
                proof {
                    lemma_find_bounds(rest@, c);
                }
                let head = slice(&rest, 0, i);
                let tail = slice(&rest, i + 1, len);
                proof {
                    assert(head.deep_view() =~= head@);
                }
                let ghost before = out.deep_view();
                let ghost old_rest = rest@;
                let ghost old_k = k;
                out.push(head);
                rest = tail;
                k = k - 1;
                proof {
                    assert(out.deep_view() =~= before.push(old_rest.take(i as int)));
                    assert(old_rest.take(i as int) =~= old_rest.subrange(0, i as int));
                    assert(rest@ =~= old_rest.skip(i as int + 1));
                    assert(splitn(old_rest, old_k as nat, c) == seq![old_rest.take(i as int)]
                        + splitn(rest@, k as nat, c));
                    assert(before + (seq![old_rest.take(i as int)] + splitn(rest@, k as nat, c))
                        =~= before.push(old_rest.take(i as int)) + splitn(rest@, k as nat, c));
                }
            },
        }
    }
    out
}


/// The index of the first whitespace character in `s`.
pub fn find_whitespace(s: &Vec<char>) -> (r: Option<usize>)
    ensures
        r matches Some(i) ==> find_ws(s@) == Some(i as int),
        r is None ==> find_ws(s@) is None,
{
    let mut i: usize = 0;
    while i < s.len()
        invariant
            i <= s@.len(),
            forall|k: int| 0 <= k < i ==> !is_ws(s@[k]),
        decreases s@.len() - i,
    {
        if is_whitespace(s[i]) {
            proof {
                lemma_find_ws_from(s@, 0, i as int);
                assert(s@.subrange(0, s@.len() as int) =~= s@);
            }
            return Some(i);
        }
        i = i + 1;
    }
    proof {
        lemma_find_ws_from(s@, 0, i as int);
        assert(s@.subrange(0, s@.len() as int) =~= s@);
    }
    None
}

/// A search for whitespace from `start` finds what a search of the rest of `s` finds.
proof fn lemma_find_ws_from(s: Seq<char>, start: int, j: int)
    requires
        0 <= start <= j <= s.len(),
        forall|k: int| start <= k < j ==> !is_ws(s[k]),
    ensures
        j < s.len() && is_ws(s[j]) ==> find_ws(s.subrange(start, s.len() as int)) == Some(j - start),
        j == s.len() ==> find_ws(s.subrange(start, s.len() as int)) is None,
    decreases j - start,
{
    let t = s.subrange(start, s.len() as int);
    if start < j {
        lemma_find_ws_from(s, start + 1, j);
        assert(t.drop_first() =~= s.subrange(start + 1, s.len() as int));
    }
}


// ── Writing numbers ─────────────────────────────────────────────────────────

/// The decimal digit `d`.
pub open spec fn dec_digit(d: int) -> char {
    (48 + d) as char
}

/// `n` in decimal, as `{}` writes it.
pub open spec fn dec_text(n: nat) -> Seq<char>
    decreases n,
{
    if n < 10 {
        seq![dec_digit(n as int)]
    } else {
        dec_text(n / 10).push(dec_digit((n % 10) as int))
    }
}

/// Reading back the decimal text of `n` gives `n`: every character is a
/// digit, the first is no sign, and together they spell `n`, so `parse`
/// gives `n` back wherever the type holds it.
pub proof fn law_decimal_round_trip(n: nat)
    ensures
        dec_text(n).len() > 0,
        all_digits(dec_text(n), 10),
        48 <= dec_text(n)[0] as u32 <= 57,
        48 <= dec_text(n).last() as u32 <= 57,
        digits_value(dec_text(n), 10) == n,
        n <= 255 ==> spec_parse_u8(dec_text(n)) == Some(n as int),
        n <= 0x7fff_ffff ==> spec_parse_i32(dec_text(n)) == Some(n as int),
    decreases n,
{
    let t = dec_text(n);
    if n < 10 {
        assert(t[0] as u32 == 48 + n);
        assert(digit_value(t[0], 10) == Some(n as int));
        assert(t.drop_last() =~= Seq::<char>::empty());
        assert(digits_value(t.drop_last(), 10) == 0);
        assert(t.last() == t[0]);
        assert(digits_value(t, 10) == n);
    } else {
        law_decimal_round_trip(n / 10);
        let p = dec_text(n / 10);
        let d = (n % 10) as int;
        assert(t == p.push(dec_digit(d)));
        assert(t.drop_last() =~= p);
        assert(t.last() as u32 == 48 + d);
        assert(digit_value(t.last(), 10) == Some(d));
        assert forall|i: int| 0 <= i < t.len() implies #[trigger] digit_value(t[i], 10) is Some by {
            if i < p.len() {
                assert(t[i] == p[i]);
            }
        }
        assert(t[0] == p[0]);
        assert(digits_value(t, 10) == digits_value(p, 10) * 10 + d);
        assert((n / 10) * 10 + n % 10 == n);
    }
    assert(t[0] != '+' && t[0] != '-');
    assert(sign_and_digits(t, false) == Some((false, t)));
    assert(sign_and_digits(t, true) == Some((false, t)));
}

/// The lower-case hexadecimal digit `d`.
pub open spec fn hex_digit(d: int) -> char {
    if d < 10 { (48 + d) as char } else { (87 + d) as char }
}

/// `v` as `0x{:08x}` writes it: `0x` and eight lower-case hexadecimal digits.
pub open spec fn hex8_text(v: u32) -> Seq<char> {
    seq!['0', 'x'] + Seq::new(8, |i: int| hex_digit(((v >> ((28 - 4 * i) as u32)) & 0xf) as int))
}

/// Appends the characters of `s`.
pub fn push_str(out: &mut Vec<char>, s: &str)
    ensures
        final(out)@ == old(out)@ + s@,
{
    let cs = to_chars(s);
    let ghost start = out@;
    let mut i: usize = 0;
    while i < cs.len()
        invariant
            i <= cs@.len(),
            cs@ == s@,
            out@ == start + cs@.take(i as int),
        decreases cs@.len() - i,
    {
        out.push(cs[i]);
        i = i + 1;
        assert(out@ =~= start + cs@.take(i as int));
    }
    assert(cs@.take(i as int) =~= cs@);
}

/// Appends `n` in decimal.
pub fn push_dec(out: &mut Vec<char>, n: u64)
    ensures
        final(out)@ == old(out)@ + dec_text(n as nat),
    decreases n,
{
    if n >= 10 {
        push_dec(out, n / 10);
    }
    let d = (n % 10) as u8;
    out.push((48u8 + d) as char);
    proof {
        if n >= 10 {
            assert(dec_text(n as nat) == dec_text((n / 10) as nat).push(dec_digit((n % 10) as int)));
        }
    }
    assert(final(out)@ =~= old(out)@ + dec_text(n as nat)) by {
        if n < 10 {
            assert(dec_text(n as nat) =~= seq![dec_digit(n as int)]);
        }
    }
}

/// Appends `v` as `0x` and eight lower-case hexadecimal digits.
pub fn push_hex8(out: &mut Vec<char>, v: u32)
    ensures
        final(out)@ == old(out)@ + hex8_text(v),
{
    let ghost start = out@;
    out.push('0');
    out.push('x');
    let ghost digits = Seq::new(8, |i: int| hex_digit(((v >> ((28 - 4 * i) as u32)) & 0xf) as int));
    let mut i: u32 = 0;
    while i < 8
        invariant
            i <= 8,
            digits == Seq::new(8, |i: int| hex_digit(((v >> ((28 - 4 * i) as u32)) & 0xf) as int)),
            out@ == start + seq!['0', 'x'] + digits.take(i as int),
        decreases 8 - i,
    {
        let sh: u32 = 28 - 4 * i;
        let nib: u32 = (v >> sh) & 0xf;
        assert(nib < 16) by (bit_vector)
            requires
                nib == (v >> sh) & 0xf,
        ;
        let d = nib as u8;
        let c = if d < 10 { (48u8 + d) as char } else { (87u8 + d) as char };
        out.push(c);
        i = i + 1;
        assert(out@ =~= start + seq!['0', 'x'] + digits.take(i as int));
    }
    assert(digits.take(8) =~= digits);
    assert(out@ =~= start + hex8_text(v));
}


/// A signed `v` in decimal, as `{}` writes it.
pub open spec fn idec_text(v: int) -> Seq<char> {
    if v < 0 { seq!['-'] + dec_text((-v) as nat) } else { dec_text(v as nat) }
}

/// `Some(..)` around a text, or `None`, as `{:?}` writes an option.
pub open spec fn option_text(o: Option<Seq<char>>) -> Seq<char> {
    match o {
        Some(t) => "Some("@ + t + ")"@,
        None => "None"@,
    }
}

/// Appends a signed `v` in decimal.
pub fn push_idec(out: &mut Vec<char>, v: i32)
    ensures
        final(out)@ == old(out)@ + idec_text(v as int),
{
    let ghost start = out@;
    if v < 0 {
        out.push('-');
        let m: i64 = -(v as i64);
        push_dec(out, m as u64);
        assert(out@ =~= start + idec_text(v as int));
    } else {
        push_dec(out, v as u64);
    }
}

} // verus!

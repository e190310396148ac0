use vstd::prelude::*;
use vstd::string::StrSliceExecFns;
use vstd::string::StringExecFns;

verus! {

// ---------------------------------------------------------------------------
// Decimal digits
// ---------------------------------------------------------------------------

/// The character of a decimal digit `d < 10`.
pub open spec fn digit_char(d: nat) -> char {
    if d == 0 {
        '0'
    } else if d == 1 {
        '1'
    } else if d == 2 {
        '2'
    } else if d == 3 {
        '3'
    } else if d == 4 {
        '4'
    } else if d == 5 {
        '5'
    } else if d == 6 {
        '6'
    } else if d == 7 {
        '7'
    } else if d == 8 {
        '8'
    } else {
        '9'
    }
}

/// Whether a character is an ASCII decimal digit.
pub open spec fn is_digit(c: char) -> bool {
    '0' <= c && c <= '9'
}

/// The value of a decimal digit character.
pub open spec fn digit_value(c: char) -> nat {
    (c as int - '0' as int) as nat
}

/// Whether every character of `s` is a decimal digit.
pub open spec fn all_digits(s: Seq<char>) -> bool {
    forall|i: int| 0 <= i < s.len() ==> is_digit(#[trigger] s[i])
}

/// The number written by the decimal digits `s` (most significant first).
pub open spec fn digits_value(s: Seq<char>) -> nat
    decreases s.len(),
{
    if s.len() == 0 {
        0
    } else {
        digits_value(s.drop_last()) * 10 + digit_value(s.last())
    }
}

/// The shortest decimal representation of `n`.
pub open spec fn decimal(n: nat) -> Seq<char>
    decreases n,
{
    if n < 10 {
        seq![digit_char(n)]
    } else {
        decimal(n / 10).push(digit_char(n % 10))
    }
}

/// The decimal representation of a signed number, with a leading `-` when
/// it is negative.
pub open spec fn signed_decimal(v: int) -> Seq<char> {
    if v < 0 {
        seq!['-'] + decimal((-v) as nat)
    } else {
        decimal(v as nat)
    }
}

/// What `str::parse::<u64>` gives back: an optional `+` followed by at
/// least one decimal digit, whose value fits in a `u64`.
pub open spec fn spec_parse_u64(s: Seq<char>) -> Option<u64> {
    let body = if s.len() > 1 && s[0] == '+' {
        s.drop_first()
    } else {
        s
    };
    if body.len() > 0 && all_digits(body) && digits_value(body) <= u64::MAX {
        Some(digits_value(body) as u64)
    } else {
        None
    }
}

/// What `str::parse::<i32>` gives back: an optional `+` or `-` followed by
/// at least one decimal digit, whose signed value fits in an `i32`.
pub open spec fn spec_parse_i32(s: Seq<char>) -> Option<i32> {
    let negative = s.len() > 1 && s[0] == '-';
    let body = if s.len() > 1 && (s[0] == '+' || s[0] == '-') {
        s.drop_first()
    } else {
        s
    };
    let value: int = if negative {
        -digits_value(body)
    } else {
        digits_value(body) as int
    };
    if body.len() > 0 && all_digits(body) && i32::MIN <= value <= i32::MAX {
        Some(value as i32)
    } else {
        None
    }
}

/// Rust's integer division, which rounds toward zero.
pub open spec fn div_toward_zero(a: int, b: int) -> int
    recommends
        b > 0,
{
    if a >= 0 {
        a / b
    } else {
        -((-a) / b)
    }
}

proof fn lemma_digit_char(d: nat)
    requires
        d < 10,
    ensures
        is_digit(digit_char(d)),
        digit_value(digit_char(d)) == d,
        digit_char(d) != '+',
        digit_char(d) != '-',
{
}

/// The decimal representation of `n` is made of digits, does not start with
/// a sign, and reads back as `n`.
pub proof fn lemma_decimal_digits(n: nat)
    ensures
        decimal(n).len() > 0,
        all_digits(decimal(n)),
        digits_value(decimal(n)) == n,
        decimal(n)[0] != '+',
        decimal(n)[0] != '-',
    decreases n,
{
    if n < 10 {
        lemma_digit_char(n);
        assert(decimal(n).drop_last() =~= Seq::<char>::empty());
        assert(digits_value(Seq::<char>::empty()) == 0);
        assert(digits_value(decimal(n)) == digits_value(decimal(n).drop_last()) * 10
            + digit_value(decimal(n).last()));
    } else {
        lemma_decimal_digits(n / 10);
        lemma_digit_char(n % 10);
        let s = decimal(n);
        assert(s.drop_last() =~= decimal(n / 10));
        assert(s.last() == digit_char(n % 10));
        assert(n == (n / 10) * 10 + n % 10);
        assert(digits_value(s) == digits_value(s.drop_last()) * 10 + digit_value(s.last()));
        assert forall|i: int| 0 <= i < s.len() implies is_digit(#[trigger] s[i]) by {
            if i < s.len() - 1 {
                assert(s[i] == decimal(n / 10)[i]);
            }
        }
        assert(s[0] == decimal(n / 10)[0]);
    }
}

/// Extending a string of digits never makes its value smaller.
pub proof fn lemma_digits_value_prefix(s: Seq<char>, k: int)
    requires
        0 <= k <= s.len(),
    ensures
        digits_value(s.subrange(0, k)) <= digits_value(s),
    decreases s.len() - k,
{
    if k < s.len() {
        lemma_digits_value_prefix(s, k + 1);
        assert(s.subrange(0, k + 1).drop_last() =~= s.subrange(0, k));
    } else {
        assert(s.subrange(0, k) =~= s);
    }
}

/// Formatting a `u64` in decimal and parsing it back gives the number again.
pub proof fn lemma_parse_u64_of_decimal(n: u64)
    ensures
        spec_parse_u64(decimal(n as nat)) == Some(n),
{
    lemma_decimal_digits(n as nat);
}

/// Formatting an `i32` in decimal and parsing it back gives the number again.
pub proof fn lemma_parse_i32_of_decimal(v: i32)
    ensures
        spec_parse_i32(signed_decimal(v as int)) == Some(v),
{
    if v < 0 {
        let m = (-(v as int)) as nat;
        lemma_decimal_digits(m);
        let s = signed_decimal(v as int);
        assert(s.drop_first() =~= decimal(m));
    } else {
        lemma_decimal_digits(v as nat);
    }
}

/// The one-character string of a decimal digit.
fn digit_str(d: u64) -> (s: &'static str)
    requires
        d < 10,
    ensures
        s@ == seq![digit_char(d as nat)],
{
    proof {
        reveal_strlit("0");
        reveal_strlit("1");
        reveal_strlit("2");
        reveal_strlit("3");
        reveal_strlit("4");
        reveal_strlit("5");
        reveal_strlit("6");
        reveal_strlit("7");
        reveal_strlit("8");
        reveal_strlit("9");
    }
    if d == 0 {
        "0"
    } else if d == 1 {
        "1"
    } else if d == 2 {
        "2"
    } else if d == 3 {
        "3"
    } else if d == 4 {
        "4"
    } else if d == 5 {
        "5"
    } else if d == 6 {
        "6"
    } else if d == 7 {
        "7"
    } else if d == 8 {
        "8"
    } else {
        "9"
    }
}

/// `n.to_string()`: the decimal representation of an unsigned number.
pub fn u64_to_decimal(n: u64) -> (s: String)
    ensures
        s@ == decimal(n as nat),
    decreases n,
{
    if n < 10 {
        String::from_str(digit_str(n))
    } else {
        let mut s = u64_to_decimal(n / 10);
        s.append(digit_str(n % 10));
        s
    }
}

/// `v.to_string()`: the decimal representation of a signed number.
pub fn i32_to_decimal(v: i32) -> (s: String)
    ensures
        s@ == signed_decimal(v as int),
{
    if v < 0 {
        let magnitude: u64 = (0i64 - (v as i64)) as u64;
        let mut s = String::from_str("-");
        proof {
            reveal_strlit("-");
        }
        let digits = u64_to_decimal(magnitude);
        s.append(digits.as_str());
        s
    } else {
        u64_to_decimal(v as u64)
    }
}

/// The value of the digits `s[start..end]`, if they are all digits and the
/// value fits in a `u64`.
fn parse_digits(s: &str, start: usize, end: usize) -> (r: Option<u64>)
    requires
        start <= end <= s@.len(),
    ensures
        ({
            let body = s@.subrange(start as int, end as int);
            match r {
                Some(v) => all_digits(body) && v == digits_value(body),
                None => !all_digits(body) || digits_value(body) > u64::MAX,
            }
        }),
{
    let ghost body = s@.subrange(start as int, end as int);
    let mut acc: u64 = 0;
    let mut i = start;
    while i < end
        invariant
            start <= i <= end <= s@.len(),
            body == s@.subrange(start as int, end as int),
            acc == digits_value(s@.subrange(start as int, i as int)),
            forall|j: int| start <= j < i ==> is_digit(#[trigger] s@[j]),
        decreases end - i,
    {
        let c = s.get_char(i);
        assert(s@.subrange(start as int, i + 1).drop_last() =~= s@.subrange(
            start as int,
            i as int,
        ));
        if c < '0' || c > '9' {
            assert(body[i - start] == c);
            return None;
        }
        let d: u64 = (c as u32 - '0' as u32) as u64;
        let next = acc.checked_mul(10);
        match next {
            Some(m) => {
                let sum = m.checked_add(d);
                match sum {
                    Some(v) => {
                        acc = v;
                    },
                    None => {
                        proof {
                            assert(s@.subrange(start as int, end as int).subrange(0, i + 1 - start)
                                =~= s@.subrange(start as int, i + 1));
                            lemma_digits_value_prefix(body, i + 1 - start);
                        }
                        return None;
                    },
                }
            },
            None => {
                proof {
                    assert(s@.subrange(start as int, end as int).subrange(0, i + 1 - start)
                        =~= s@.subrange(start as int, i + 1));
                    lemma_digits_value_prefix(body, i + 1 - start);
                }
                return None;
            },
        }
        i = i + 1;
    }
    assert forall|j: int| 0 <= j < body.len() implies is_digit(#[trigger] body[j]) by {
        assert(body[j] == s@[start + j]);
    }
    Some(acc)
}

/// `s.parse::<u64>().ok()`.
pub fn parse_u64(s: &str) -> (r: Option<u64>)
    ensures
        r == spec_parse_u64(s@),
{
    let len = s.unicode_len();
    let start: usize = if len > 1 && s.get_char(0) == '+' {
        1
    } else {
        0
    };
    assert(s@.subrange(start as int, len as int) =~= if start == 1 {
        s@.drop_first()
    } else {
        s@
    });
    if start == len {
        return None;
    }
    parse_digits(s, start, len)
}

/// `s.parse::<i32>().ok()`.
pub fn parse_i32(s: &str) -> (r: Option<i32>)
    ensures
        r == spec_parse_i32(s@),
{
    let len = s.unicode_len();
    let mut start: usize = 0;
    let mut negative = false;
    if len > 1 {
        let c = s.get_char(0);
        if c == '+' {
            start = 1;
        } else if c == '-' {
            start = 1;
            negative = true;
        }
    }
    assert(s@.subrange(start as int, len as int) =~= if start == 1 {
        s@.drop_first()
    } else {
        s@
    });
    if start == len {
        return None;
    }
    match parse_digits(s, start, len) {
        None => None,
        Some(m) => {
            if negative {
                if m <= 2147483648 {
                    Some((0i64 - (m as i64)) as i32)
                } else {
                    None
                }
            } else {
                if m <= 2147483647 {
                    Some(m as i32)
                } else {
                    None
                }
            }
        },
    }
}

/// `a / b` on an `i32`, rounding toward zero.
pub fn i32_div(a: i32, b: i32) -> (q: i32)
    requires
        b > 0,
    ensures
        q as int == div_toward_zero(a as int, b as int),
{
    if a >= 0 {
        a / b
    } else {
        let m: i64 = 0i64 - (a as i64);
        let r: i64 = m / (b as i64);
        assert(r <= m);
        (0i64 - r) as i32
    }
}

// ---------------------------------------------------------------------------
// Paths and names
// ---------------------------------------------------------------------------

/// `Path::join` on Unix, for paths given as text: an absolute `seg` replaces
/// `base`; otherwise `seg` is appended, with a `/` between the two unless
/// `base` is empty or already ends in one.
pub open spec fn spec_join_path(base: Seq<char>, seg: Seq<char>) -> Seq<char> {
    if seg.len() > 0 && seg[0] == '/' {
        seg
    } else if base.len() == 0 || base.last() == '/' {
        base + seg
    } else {
        base + seq!['/'] + seg
    }
}

/// `s.replace('/', "")`: `s` without its slashes.
pub open spec fn remove_slashes(s: Seq<char>) -> Seq<char>
    decreases s.len(),
{
    if s.len() == 0 {
        seq![]
    } else if s.last() == '/' {
        remove_slashes(s.drop_last())
    } else {
        remove_slashes(s.drop_last()).push(s.last())
    }
}

/// Joins `seg` onto the path `base`.
pub fn join_path(base: &str, seg: &str) -> (r: String)
    ensures
        r@ == spec_join_path(base@, seg@),
{
    proof {
        reveal_strlit("/");
    }
    let seg_len = seg.unicode_len();
    if seg_len > 0 && seg.get_char(0) == '/' {
        return String::from_str(seg);
    }
    let base_len = base.unicode_len();
    let mut r = String::from_str(base);
    if base_len > 0 && base.get_char(base_len - 1) != '/' {
        r.append("/");
    }
    r.append(seg);
    r
}

/// Removes every `/` from `s`.
pub fn strip_slashes(s: &str) -> (r: String)
    ensures
        r@ == remove_slashes(s@),
{
    let len = s.unicode_len();
    let mut r = String::new();
    let mut i: usize = 0;
    while i < len
        invariant
            i <= len == s@.len(),
            r@ == remove_slashes(s@.subrange(0, i as int)),
        decreases len - i,
    {
        let c = s.get_char(i);
        assert(s@.subrange(0, i + 1).drop_last() =~= s@.subrange(0, i as int));
        if c != '/' {
            let piece = s.substring_char(i, i + 1);
            assert(piece@ =~= seq![c]);
            r.append(piece);
        }
        i = i + 1;
    }
    assert(s@.subrange(0, len as int) =~= s@);
    r
}

/// Concatenates two pieces of text.
pub fn concat2(a: &str, b: &str) -> (r: String)
    ensures
        r@ == a@ + b@,
{
    let mut r = String::from_str(a);
    r.append(b);
    r
}

/// Concatenates three pieces of text.
pub fn concat3(a: &str, b: &str, c: &str) -> (r: String)
    ensures
        r@ == a@ + b@ + c@,
{
    let mut r = String::from_str(a);
    r.append(b);
    r.append(c);
    r
}

/// The text of an optional string.
pub open spec fn option_text(o: Option<String>) -> Option<Seq<char>> {
    match o {
        Some(s) => Some(s@),
        None => None,
    }
}

/// The text of each string.
pub open spec fn texts(strings: Seq<String>) -> Seq<Seq<char>> {
    strings.map_values(|s: String| s@)
}

// ---------------------------------------------------------------------------
// The parent of a path
// ---------------------------------------------------------------------------

/// The length of the root of a Unix path: `1` if it starts with `/`.
pub open spec fn root_len(p: Seq<char>) -> int {
    if p.len() > 0 && p[0] == '/' {
        1
    } else {
        0
    }
}

/// Whether a relative path starts with the component `.` (it is `.` or
/// starts with `./`), which is kept as its first component.
pub open spec fn starts_with_cur_dir(p: Seq<char>) -> bool {
    root_len(p) == 0 && p.len() > 0 && p[0] == '.' && (p.len() == 1 || p[1] == '/')
}

/// Where the components of a path begin: after its root, or after a
/// leading `.`.
pub open spec fn body_start(p: Seq<char>) -> int {
    root_len(p) + if starts_with_cur_dir(p) {
        1int
    } else {
        0int
    }
}

/// The position of the last `/` in `p[start..end]`, or `start - 1` if
/// there is none.
pub open spec fn last_separator(p: Seq<char>, start: int, end: int) -> int
    decreases end - start,
{
    if end <= start {
        start - 1
    } else if p[end - 1] == '/' {
        end - 1
    } else {
        last_separator(p, start, end - 1)
    }
}

/// Where the last segment of `p[start..end]` begins.
pub open spec fn segment_start(p: Seq<char>, start: int, end: int) -> int {
    last_separator(p, start, end) + 1
}

/// Where the text before the last segment of `p[start..end]` (and before
/// the separator in front of it) ends.
pub open spec fn before_segment(p: Seq<char>, start: int, end: int) -> int {
    if last_separator(p, start, end) >= start {
        last_separator(p, start, end)
    } else {
        start
    }
}

/// Whether a segment is no component: it is empty (from a repeated or
/// trailing `/`) or `.`.
pub open spec fn no_component(seg: Seq<char>) -> bool {
    seg.len() == 0 || (seg.len() == 1 && seg[0] == '.')
}

/// `last_separator` lies in `[start - 1, end)`, finds a `/` when it is at
/// or after `start`, and no `/` stands after it before `end`.
pub proof fn lemma_last_separator_bounds(p: Seq<char>, start: int, end: int)
    ensures
        end <= start ==> last_separator(p, start, end) == start - 1,
        end > start ==> start - 1 <= last_separator(p, start, end) <= end - 1,
        last_separator(p, start, end) >= start ==> p[last_separator(p, start, end)] == '/',
        forall|j: int|
            last_separator(p, start, end) < j < end && j >= start ==> #[trigger] p[j] != '/',
    decreases end - start,
{
    if end > start && p[end - 1] != '/' {
        lemma_last_separator_bounds(p, start, end - 1);
    }
}

/// The end of `p[..end]` once the segments that are no component have been
/// taken off its end, down to `start`.
pub open spec fn trim_no_components(p: Seq<char>, start: int, end: int) -> int
    decreases end - start,
{
    if end <= start {
        end
    } else if no_component(p.subrange(segment_start(p, start, end), end)) {
        proof {
            lemma_last_separator_bounds(p, start, end);
        }
        trim_no_components(p, start, before_segment(p, start, end))
    } else {
        end
    }
}

/// `Path::parent` on Unix, for a path given as text: the path without its
/// final component, with the separators and `.` segments in front of that
/// component taken off too; `None` when the path is empty or its last
/// component is the root.
pub open spec fn spec_parent(p: Seq<char>) -> Option<Seq<char>> {
    let start = body_start(p);
    let last_end = trim_no_components(p, start, p.len() as int);
    if last_end > start {
        Some(
            p.subrange(
                0,
                trim_no_components(p, start, before_segment(p, start, last_end)),
            ),
        )
    } else if starts_with_cur_dir(p) {
        Some(Seq::empty())
    } else {
        None
    }
}

proof fn lemma_trim_bounds(p: Seq<char>, start: int, end: int)
    requires
        start <= end,
    ensures
        start <= trim_no_components(p, start, end) <= end,
    decreases end - start,
{
    if end > start && no_component(p.subrange(segment_start(p, start, end), end)) {
        lemma_last_separator_bounds(p, start, end);
        lemma_trim_bounds(p, start, before_segment(p, start, end));
    }
}

/// The position of the last `/` in `p[start..end]`, if there is one.
fn find_last_separator(p: &str, start: usize, end: usize) -> (k: Option<usize>)
    requires
        start <= end <= p@.len(),
    ensures
        match k {
            Some(k) => start <= k < end && k == last_separator(p@, start as int, end as int),
            None => last_separator(p@, start as int, end as int) == start - 1,
        },
{
    let mut e = end;
    while e > start
        invariant
            start <= e <= end <= p@.len(),
            last_separator(p@, start as int, end as int) == last_separator(
                p@,
                start as int,
                e as int,
            ),
        decreases e,
    {
        if p.get_char(e - 1) == '/' {
            return Some(e - 1);
        }
        e = e - 1;
    }
    None
}

/// Takes the segments that are no component off the end of `p[..end]`.
fn trim_end(p: &str, start: usize, end: usize) -> (r: usize)
    requires
        start <= end <= p@.len(),
    ensures
        r == trim_no_components(p@, start as int, end as int),
        start <= r <= end,
{
    proof {
        lemma_trim_bounds(p@, start as int, end as int);
    }
    let mut e = end;
    while e > start
        invariant
            start <= e <= end <= p@.len(),
            trim_no_components(p@, start as int, end as int) == trim_no_components(
                p@,
                start as int,
                e as int,
            ),
        decreases e,
    {
        let k = find_last_separator(p, start, e);
        let seg_start = match k {
            Some(k) => k + 1,
            None => start,
        };
        let before = match k {
            Some(k) => k,
            None => start,
        };
        let ghost seg = p@.subrange(seg_start as int, e as int);
        let empty = seg_start == e;
        let dot = e - seg_start == 1 && p.get_char(seg_start) == '.';
        assert(dot ==> seg[0] == p@[seg_start as int]);
        if empty || dot {
            assert(no_component(seg));
            e = before;
        } else {
            assert(!no_component(seg));
            return e;
        }
    }
    e
}

/// The parent directory of the Unix path `p`: `Path::parent`, as text.
pub fn parent_path(p: &str) -> (parent: Option<String>)
    ensures
        option_text(parent) == spec_parent(p@),
{
    let len = p.unicode_len();
    let root: usize = if len > 0 && p.get_char(0) == '/' {
        1
    } else {
        0
    };
    let cur: usize = if root == 0 && len > 0 && p.get_char(0) == '.' && (len == 1 || p.get_char(1)
        == '/') {
        1
    } else {
        0
    };
    let start = root + cur;
    let last_end = trim_end(p, start, len);
    if last_end > start {
        let k = find_last_separator(p, start, last_end);
        let before = match k {
            Some(k) => k,
            None => start,
        };
        let parent_end = trim_end(p, start, before);
        Some(String::from_str(p.substring_char(0, parent_end)))
    } else if cur == 1 {
        Some(String::new())
    } else {
        None
    }
}

} // verus!

//! Text utilities shared by the menu and the dispatcher: whitespace
//! trimming, decimal parsing and formatting, line splitting, and leading
//! fields of a line. All of them work on `char` sequences; the
//! whitespace notion is the ASCII one (space, tab, newline, carriage
//! return), which covers everything the surrounding tool produces.

use vstd::prelude::*;

verus! {

/// ASCII whitespace: space, horizontal tab, line feed, carriage return.
pub open spec fn is_space(c: char) -> bool {
    c == ' ' || c == '\t' || c == '\n' || c == '\r'
}

/// `s` with its leading whitespace removed.
pub open spec fn trim_start_rec(s: Seq<char>) -> Seq<char>
    decreases s.len(),
{
    if s.len() == 0 {
        s
    } else if is_space(s[0]) {
        trim_start_rec(s.subrange(1, s.len() as int))
    } else {
        s
    }
}

/// `s` with its trailing whitespace removed.
pub open spec fn trim_end_rec(s: Seq<char>) -> Seq<char>
    decreases s.len(),
{
    if s.len() == 0 {
        s
    } else if is_space(s[s.len() - 1]) {
        trim_end_rec(s.subrange(0, s.len() - 1))
    } else {
        s
    }
}

/// `s` with both leading and trailing whitespace removed.
pub open spec fn trimmed(s: Seq<char>) -> Seq<char> {
    trim_end_rec(trim_start_rec(s))
}

/// If the first `i` characters of `s` are whitespace and, unless the whole
/// string is whitespace, `s[i]` is not, then trimming the start of `s`
/// drops exactly those `i` characters.
proof fn lemma_trim_start_at(s: Seq<char>, i: int)
    requires
        0 <= i <= s.len(),
        forall|j: int| 0 <= j < i ==> is_space(s[j]),
        i < s.len() ==> !is_space(s[i]),
    ensures
        trim_start_rec(s) =~= s.subrange(i, s.len() as int),
    decreases i,
{
    if i == 0 {
        if s.len() > 0 {
            assert(!is_space(s[0]));
        }
        assert(trim_start_rec(s) =~= s.subrange(0, s.len() as int));
    } else {
        assert(is_space(s[0]));
        let t = s.subrange(1, s.len() as int);
        assert(forall|j: int| 0 <= j < i - 1 ==> is_space(t[j]));
        lemma_trim_start_at(t, i - 1);
        assert(trim_start_rec(s) == trim_start_rec(t));
        assert(t.subrange(i - 1, t.len() as int) =~= s.subrange(i, s.len() as int));
    }
}

/// If every character of `s` from position `e` on is whitespace and,
/// unless `e` is zero, `s[e - 1]` is not, then trimming the end of `s`
/// keeps exactly the first `e` characters.
proof fn lemma_trim_end_at(s: Seq<char>, e: int)
    requires
        0 <= e <= s.len(),
        forall|j: int| e <= j < s.len() ==> is_space(s[j]),
        e > 0 ==> !is_space(s[e - 1]),
    ensures
        trim_end_rec(s) =~= s.subrange(0, e),
    decreases s.len() - e,
{
    if e == s.len() {
        if s.len() > 0 {
            assert(!is_space(s[s.len() - 1]));
        }
        assert(trim_end_rec(s) =~= s.subrange(0, s.len() as int));
    } else {
        assert(is_space(s[s.len() - 1]));
        let t = s.subrange(0, s.len() - 1);
        assert(forall|j: int| e <= j < t.len() ==> is_space(t[j]));
        lemma_trim_end_at(t, e);
        assert(trim_end_rec(s) == trim_end_rec(t));
        assert(t.subrange(0, e) =~= s.subrange(0, e));
    }
}

/// The digit character for a value below ten.
pub open spec fn digit_char(d: nat) -> char {
    if d == 0 {
        '0'
    } else if d == 1 {
        '1'
    } else if d == 2 {
        '2'
    } else if d == 3 {
        '3'
    } else if d == 4 {
        '4'
    } else if d == 5 {
        '5'
    } else if d == 6 {
        '6'
    } else if d == 7 {
        '7'
    } else if d == 8 {
        '8'
    } else {
        '9'
    }
}

/// The decimal representation of `n`, without a sign and without leading
/// zeros (the representation of zero itself is `"0"`).
pub open spec fn dec_rep(n: nat) -> Seq<char>
    decreases n,
{
    if n < 10 {
        seq![digit_char(n)]
    } else {
        dec_rep(n / 10).push(digit_char(n % 10))
    }
}

/// The decimal representation of a possibly negative integer: a minus
/// sign followed by the representation of the magnitude.
pub open spec fn int_rep(k: int) -> Seq<char> {
    if k < 0 {
        seq!['-'] + dec_rep((-k) as nat)
    } else {
        dec_rep(k as nat)
    }
}

/// The one-character string for a digit value.
fn digit_str(d: u32) -> (r: &'static str)
    requires
        d < 10,
    ensures
        r@ =~= seq![digit_char(d as nat)],
{
    proof {
        reveal_strlit("0");
        reveal_strlit("1");
        reveal_strlit("2");
        reveal_strlit("3");
        reveal_strlit("4");
        reveal_strlit("5");
        reveal_strlit("6");
        reveal_strlit("7");
        reveal_strlit("8");
        reveal_strlit("9");
    }
    match d {
        0 => "0",
        1 => "1",
        2 => "2",
        3 => "3",
        4 => "4",
        5 => "5",
        6 => "6",
        7 => "7",
        8 => "8",
        _ => "9",
    }
}

/// Appends the decimal representation of `n` to `out`.
fn push_decimal(n: u32, out: &mut String)
    ensures
        final(out)@ == old(out)@ + dec_rep(n as nat),
    decreases n,
{
    if n >= 10 {
        push_decimal(n / 10, out);
    }
    let d = digit_str(n % 10);
    out.append(d);
    proof {
        assert(final(out)@ =~= old(out)@ + dec_rep(n as nat));
    }
}

/// Returns the decimal representation of `n` as a string.
pub fn u32_to_string(n: u32) -> (r: String)
    ensures
        r@ == dec_rep(n as nat),
{
    let mut out = String::new();
    push_decimal(n, &mut out);
    proof {
        assert(out@ =~= dec_rep(n as nat));
    }
    out
}

/// Returns the decimal representation of `k`, with a leading minus sign
/// when `k` is negative.
pub fn i32_to_string(k: i32) -> (r: String)
    ensures
        r@ == int_rep(k as int),
{
    if k < 0 {
        let magnitude: u32 = (-(k as i64)) as u32;
        proof {
            reveal_strlit("-");
        }
        let mut out = String::from_str("-");
        push_decimal(magnitude, &mut out);
        proof {
            assert(out@ =~= int_rep(k as int));
        }
        out
    } else {
        u32_to_string(k as u32)
    }
}

/// Whether `c` is a decimal digit.
pub open spec fn is_digit(c: char) -> bool {
    48 <= c as u32 && c as u32 <= 57
}

/// The value of a digit character.
pub open spec fn digit_val(c: char) -> nat
    recommends
        is_digit(c),
{
    (c as u32 - 48) as nat
}

/// Whether every character of `s` is a decimal digit.
pub open spec fn all_digits(s: Seq<char>) -> bool {
    forall|i: int| 0 <= i < s.len() ==> is_digit(s[i])
}

/// The numeric value of a digit string, most significant digit first.
pub open spec fn digits_val(s: Seq<char>) -> nat
    recommends
        all_digits(s),
    decreases s.len(),
{
    if s.len() == 0 {
        0
    } else {
        digits_val(s.drop_last()) * 10 + digit_val(s.last())
    }
}

/// Whether `s` is a digit string that denotes a value fitting in `u32`:
/// non-empty, digits only, value at most `u32::MAX`.
pub open spec fn parses_as_u32(s: Seq<char>) -> bool {
    s.len() > 0 && all_digits(s) && digits_val(s) <= u32::MAX
}

/// Extending a digit string by one digit multiplies its value by ten and
/// adds the new digit.
proof fn lemma_digits_val_extend(s: Seq<char>, i: int)
    requires
        0 <= i < s.len(),
    ensures
        digits_val(s.subrange(0, i + 1)) == digits_val(s.subrange(0, i)) * 10 + digit_val(s[i]),
{
    let p = s.subrange(0, i + 1);
    assert(p.drop_last() =~= s.subrange(0, i));
    assert(p.last() == s[i]);
}

/// A digit string's value never shrinks as the string grows to the right.
proof fn lemma_digits_val_prefix_mono(s: Seq<char>, i: int, j: int)
    requires
        0 <= i <= j <= s.len(),
    ensures
        digits_val(s.subrange(0, i)) <= digits_val(s.subrange(0, j)),
    decreases j - i,
{
    if i < j {
        lemma_digits_val_prefix_mono(s, i, j - 1);
        lemma_digits_val_extend(s, j - 1);
        let a = digits_val(s.subrange(0, j - 1));
        assert(a <= a * 10) by (nonlinear_arith);
    }
}

/// The digit part of an unsigned decimal literal: one leading plus sign,
/// if any, is dropped, every other character stays.
pub open spec fn unsigned_digits(s: Seq<char>) -> Seq<char> {
    if s.len() > 0 && s[0] == '+' {
        s.subrange(1, s.len() as int)
    } else {
        s
    }
}

/// Parses `s` as an unsigned decimal number: succeeds exactly when `s`,
/// less one optional leading plus sign, is non-empty, consists of digits
/// only, and its value fits in `u32`.
pub fn parse_u32(s: &str) -> (r: Option<u32>)
    ensures
        parses_as_u32(unsigned_digits(s@)) ==> (r matches Some(v) && v as nat == digits_val(
            unsigned_digits(s@),
        )),
        !parses_as_u32(unsigned_digits(s@)) ==> r is None,
{
    let n = s.unicode_len();
    if n > 0 && s.get_char(0) == '+' {
        let rest = s.substring_char(1, n);
        parse_digits(rest)
    } else {
        parse_digits(s)
    }
}

/// Parses a plain digit string, as [`parses_as_u32`] describes.
fn parse_digits(s: &str) -> (r: Option<u32>)
    ensures
        parses_as_u32(s@) ==> (r matches Some(v) && v as nat == digits_val(s@)),
        !parses_as_u32(s@) ==> r is None,
{
    let n = s.unicode_len();
    if n == 0 {
        return None;
    }
    let mut acc: u32 = 0;
    let mut i: usize = 0;
    while i < n
        invariant
            0 <= i <= n,
            n == s@.len(),
            forall|j: int| 0 <= j < i ==> is_digit(s@[j]),
            acc as nat == digits_val(s@.subrange(0, i as int)),
        decreases n - i,
    {
        let c = s.get_char(i);
        let cv = c as u32;
        if cv < 48 || cv > 57 {
            assert(!is_digit(s@[i as int]));
            return None;
        }
        let d = cv - 48;
        let limit = (u32::MAX - d) / 10;
        proof {
            lemma_digits_val_extend(s@, i as int);
        }
        if acc > limit {
            proof {
                let m = u32::MAX as nat;
                assert(acc * 10 >= (limit + 1) * 10) by (nonlinear_arith)
                    requires
                        acc >= limit + 1,
                ;
                assert((limit as nat) * 10 + 10 > m - d) by (nonlinear_arith)
                    requires
                        limit == ((u32::MAX - d) as nat) / 10,
                        d == cv - 48,
                        m == u32::MAX as nat,
                        cv <= 57,
                ;
                assert(digits_val(s@.subrange(0, i + 1)) > m);
                lemma_digits_val_prefix_mono(s@, i + 1, n as int);
                assert(s@.subrange(0, n as int) =~= s@);
                assert(!parses_as_u32(s@));
            }
            return None;
        }
        proof {
            assert(acc * 10 <= limit * 10) by (nonlinear_arith)
                requires
                    acc <= limit,
            ;
            assert((limit as nat) * 10 <= (u32::MAX - d) as nat) by (nonlinear_arith)
                requires
                    limit == ((u32::MAX - d) as nat) / 10,
            ;
        }
        acc = acc * 10 + d;
        i = i + 1;
    }
    proof {
        assert(s@.subrange(0, n as int) =~= s@);
    }
    Some(acc)
}

/// The segments of `s` between newline characters, in order. A string
/// without a newline is one segment; every newline separates two
/// segments, so the result holds one segment more than `s` holds
/// newlines, and an empty string is one empty segment.
pub open spec fn split_lines(s: Seq<char>) -> Seq<Seq<char>>
    decreases s.len(),
{
    if s.len() == 0 {
        seq![s]
    } else if s[0] == '\n' {
        seq![Seq::<char>::empty()] + split_lines(s.subrange(1, s.len() as int))
    } else {
        let rest = split_lines(s.subrange(1, s.len() as int));
        seq![seq![s[0]] + rest[0]] + rest.subrange(1, rest.len() as int)
    }
}

/// Splitting always yields at least one segment.
proof fn lemma_split_lines_len(s: Seq<char>)
    ensures
        split_lines(s).len() >= 1,
    decreases s.len(),
{
    if s.len() > 0 {
        lemma_split_lines_len(s.subrange(1, s.len() as int));
    }
}

/// A string without newlines splits into itself alone.
proof fn lemma_split_no_newline(s: Seq<char>)
    requires
        forall|j: int| 0 <= j < s.len() ==> s[j] != '\n',
    ensures
        split_lines(s) =~~= seq![s],
    decreases s.len(),
{
    if s.len() > 0 {
        let t = s.subrange(1, s.len() as int);
        lemma_split_no_newline(t);
        assert(seq![s[0]] + t =~= s);
    }
}

/// If the first newline of `s` stands at position `k`, the first segment
/// is everything before it and the rest are the segments of what follows.
proof fn lemma_split_at_newline(s: Seq<char>, k: int)
    requires
        0 <= k < s.len(),
        forall|j: int| 0 <= j < k ==> s[j] != '\n',
        s[k] == '\n',
    ensures
        split_lines(s) =~~= seq![s.subrange(0, k)] + split_lines(
            s.subrange(k + 1, s.len() as int),
        ),
    decreases k,
{
    let t = s.subrange(1, s.len() as int);
    if k == 0 {
        assert(s.subrange(0, 0) =~= Seq::<char>::empty());
    } else {
        lemma_split_at_newline(t, k - 1);
        lemma_split_lines_len(t);
        let rest = split_lines(t);
        assert(rest[0] == t.subrange(0, k - 1));
        assert(seq![s[0]] + t.subrange(0, k - 1) =~= s.subrange(0, k));
        assert(t.subrange(k, t.len() as int) =~= s.subrange(k + 1, s.len() as int));
        assert((seq![t.subrange(0, k - 1)] + split_lines(t.subrange(k, t.len() as int))).subrange(
            1,
            split_lines(t).len() as int,
        ) =~= split_lines(t.subrange(k, t.len() as int)));
    }
}

/// Splits `s` at newline characters, as [`split_lines`] describes.
pub fn lines_of(s: &str) -> (r: Vec<String>)
    ensures
        r.deep_view() =~~= split_lines(s@),
{
    let n = s.unicode_len();
    let mut res: Vec<String> = Vec::new();
    let mut seg_start: usize = 0;
    let mut i: usize = 0;
    proof {
        assert(s@.subrange(0, n as int) =~= s@);
        assert(res.deep_view() =~= Seq::<Seq<char>>::empty());
        assert(res.deep_view() + split_lines(s@) =~~= split_lines(s@));
    }
    while i < n
        invariant
            0 <= seg_start <= i <= n,
            n == s@.len(),
            forall|j: int| seg_start <= j < i ==> s@[j] != '\n',
            split_lines(s@) =~~= res.deep_view() + split_lines(
                s@.subrange(seg_start as int, n as int),
            ),
        decreases n - i,
    {
        if s.get_char(i) == '\n' {
            let piece = s.substring_char(seg_start, i);
            proof {
                let u = s@.subrange(seg_start as int, n as int);
                assert(forall|j: int|
                    0 <= j < i - seg_start ==> u[j] == s@[seg_start + j] && u[j] != '\n');
                lemma_split_at_newline(u, i - seg_start);
                assert(u.subrange(0, i - seg_start) =~= s@.subrange(seg_start as int, i as int));
                assert(u.subrange(i - seg_start + 1, u.len() as int) =~= s@.subrange(
                    i + 1,
                    n as int,
                ));
            }
            res.push(String::from_str(piece));
            seg_start = i + 1;
        }
        i = i + 1;
    }
    let piece = s.substring_char(seg_start, n);
    proof {
        let u = s@.subrange(seg_start as int, n as int);
        assert(forall|j: int| 0 <= j < u.len() ==> u[j] == s@[seg_start + j] && u[j] != '\n');
        lemma_split_no_newline(u);
    }
    res.push(String::from_str(piece));
    res
}

/// The run of non-whitespace characters at the front of `s`.
pub open spec fn leading_token(s: Seq<char>) -> Seq<char>
    decreases s.len(),
{
    if s.len() == 0 {
        s
    } else if is_space(s[0]) {
        Seq::empty()
    } else {
        seq![s[0]] + leading_token(s.subrange(1, s.len() as int))
    }
}

/// The first whitespace-separated field of `s`: its leading whitespace is
/// skipped, then characters are taken up to the next whitespace.
pub open spec fn first_field(s: Seq<char>) -> Seq<char> {
    leading_token(trim_start_rec(s))
}

/// If no character before position `e` is whitespace and, unless the
/// whole string is the token, `s[e]` is, the leading token is exactly the
/// first `e` characters.
proof fn lemma_leading_token_at(s: Seq<char>, e: int)
    requires
        0 <= e <= s.len(),
        forall|j: int| 0 <= j < e ==> !is_space(s[j]),
        e < s.len() ==> is_space(s[e]),
    ensures
        leading_token(s) =~= s.subrange(0, e),
    decreases e,
{
    if e == 0 {
        assert(s.subrange(0, 0) =~= Seq::<char>::empty());
        if s.len() > 0 {
            assert(is_space(s[0]));
        }
    } else {
        let t = s.subrange(1, s.len() as int);
        lemma_leading_token_at(t, e - 1);
        assert(seq![s[0]] + t.subrange(0, e - 1) =~= s.subrange(0, e));
    }
}

/// Returns the first whitespace-separated field of `s`, the empty string
/// when `s` is empty or all whitespace.
pub fn first_token(s: &str) -> (r: String)
    ensures
        r@ == first_field(s@),
{
    let n = s.unicode_len();
    let mut start: usize = 0;
    while start < n && is_space_char(s.get_char(start))
        invariant
            0 <= start <= n,
            n == s@.len(),
            forall|j: int| 0 <= j < start ==> is_space(s@[j]),
        decreases n - start,
    {
        start = start + 1;
    }
    let mut end: usize = start;
    while end < n && !is_space_char(s.get_char(end))
        invariant
            start <= end <= n,
            n == s@.len(),
            forall|j: int| start <= j < end ==> !is_space(s@[j]),
        decreases n - end,
    {
        end = end + 1;
    }
    proof {
        lemma_trim_start_at(s@, start as int);
        let u = s@.subrange(start as int, n as int);
        assert(forall|j: int| 0 <= j < end - start ==> u[j] == s@[start + j] && !is_space(u[j]));
        if end < n {
            assert(u[end - start] == s@[end as int]);
        }
        lemma_leading_token_at(u, end - start);
        assert(u.subrange(0, end - start) =~= s@.subrange(start as int, end as int));
    }
    let piece = s.substring_char(start, end);
    String::from_str(piece)
}

/// Whether `c` is ASCII whitespace; the executable twin of [`is_space`].
pub fn is_space_char(c: char) -> (r: bool)
    ensures
        r == is_space(c),
{
    c == ' ' || c == '\t' || c == '\n' || c == '\r'
}

/// Returns `s` with leading and trailing ASCII whitespace removed.
pub fn trim(s: &str) -> (r: String)
    ensures
        r@ == trimmed(s@),
{
    let n = s.unicode_len();
    let mut start: usize = 0;
    while start < n && is_space_char(s.get_char(start))
        invariant
            0 <= start <= n,
            n == s@.len(),
            forall|j: int| 0 <= j < start ==> is_space(s@[j]),
        decreases n - start,
    {
        start = start + 1;
    }
    let mut end: usize = n;
    while end > start && is_space_char(s.get_char(end - 1))
        invariant
            start <= end <= n,
            n == s@.len(),
            forall|j: int| end <= j < n ==> is_space(s@[j]),
        decreases end,
    {
        end = end - 1;
    }
    proof {
        lemma_trim_start_at(s@, start as int);
        let t = s@.subrange(start as int, n as int);
        assert(forall|j: int| end - start <= j < t.len() ==> is_space(t[j]));
        if end > start {
            assert(!is_space(s@[end - 1]));
            assert(t[end - start - 1] == s@[end - 1]);
        }
        lemma_trim_end_at(t, end - start);
        assert(t.subrange(0, end - start) =~= s@.subrange(start as int, end as int));
    }
    let piece = s.substring_char(start, end);
    String::from_str(piece)
}

} // verus!

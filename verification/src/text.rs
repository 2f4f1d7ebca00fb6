//! Character-level text utilities: sanitizing, trimming, splitting and
//! integer parsing over `Seq<char>` views.

use vstd::prelude::*;

verus! {

/// Bridge from a string slice to its characters.
pub fn chars_of(s: &str) -> (v: Vec<char>)
    ensures
        v@ == s@,
{
    let n: usize = s.unicode_len();
    let mut v: Vec<char> = Vec::new();
    let mut i: usize = 0;
    while i < n
        invariant
            i <= n,
            n == s@.len(),
            v@ == s@.subrange(0, i as int),
        decreases n - i,
    {
        let c = s.get_char(i);
        v.push(c);
        i = i + 1;
        proof {
            assert(v@ =~= s@.subrange(0, i as int));
        }
    }
    proof {
        assert(v@ =~= s@);
    }
    v
}

/// Relies on std's `FromIterator<char> for String` (`collect`): the
/// resulting string holds exactly the characters of `v`, in order.
#[verifier::external_body]
pub fn string_of_chars(v: &Vec<char>) -> (s: String)
    ensures
        s@ == v@,
{
    v.iter().collect()
}

/// A Unicode control character (category Cc): U+0000..=U+001F or
/// U+007F..=U+009F, as `char::is_control` reports.
pub open spec fn is_ctrl_char(c: char) -> bool {
    (c as u32) < 0x20 || (0x7f <= (c as u32) && (c as u32) <= 0x9f)
}

/// Characters that survive sanitizing: everything but control
/// characters, except that newline, carriage return and tab stay.
pub open spec fn keeps_in_sanitized(c: char) -> bool {
    !is_ctrl_char(c) || c == '\n' || c == '\r' || c == '\t'
}

fn keep_in_sanitized(c: char) -> (r: bool)
    ensures
        r == keeps_in_sanitized(c),
{
    let u: u32 = c as u32;
    u >= 0x20 && !(0x7f <= u && u <= 0x9f) || c == '\n' || c == '\r' || c == '\t'
}

/// Drop control characters (keeping newline, carriage return and tab),
/// making a string safe for storage.
pub fn sanitize_utf8(s: &str) -> (r: String)
    ensures
        r@ == s@.filter(|c: char| keeps_in_sanitized(c)),
{
    let v = chars_of(s);
    let n: usize = v.len();
    let mut out: Vec<char> = Vec::new();
    let mut i: usize = 0;
    while i < n
        invariant
            i <= n,
            n == v@.len(),
            v@ == s@,
            out@ == v@.subrange(0, i as int).filter(|c: char| keeps_in_sanitized(c)),
        decreases n - i,
    {
        let c = v[i];
        proof {
            reveal(Seq::filter);
            assert(v@.subrange(0, i + 1 as int).drop_last() =~= v@.subrange(0, i as int));
            assert(v@.subrange(0, i + 1 as int).last() == c);
        }
        if keep_in_sanitized(c) {
            out.push(c);
        }
        i = i + 1;
    }
    proof {
        assert(v@.subrange(0, n as int) =~= s@);
    }
    string_of_chars(&out)
}

/// `sep` occurs in `s` starting at position `i`.
pub open spec fn match_at(s: Seq<char>, sep: Seq<char>, i: int) -> bool {
    0 <= i && i + sep.len() <= s.len() && s.subrange(i, i + sep.len() as int) == sep
}

/// Position of the first occurrence of `sep` in `s`, or -1 if none.
pub open spec fn first_match(s: Seq<char>, sep: Seq<char>) -> int
    decreases s.len(),
{
    if s.len() < sep.len() {
        -1
    } else if s.subrange(0, sep.len() as int) == sep {
        0
    } else if s.len() == 0 {
        -1
    } else {
        let r = first_match(s.drop_first(), sep);
        if r < 0 {
            -1
        } else {
            r + 1
        }
    }
}

/// Occurrences in the tail of `s` are occurrences in `s`, shifted by one.
proof fn lemma_match_at_drop_first(s: Seq<char>, sep: Seq<char>, i: int)
    requires
        s.len() > 0,
        0 <= i,
    ensures
        match_at(s.drop_first(), sep, i) <==> match_at(s, sep, i + 1),
{
    if i + 1 + sep.len() <= s.len() {
        assert(s.drop_first().subrange(i, i + sep.len() as int) =~= s.subrange(
            i + 1,
            i + 1 + sep.len() as int,
        ));
    }
}

/// `first_match` returns -1 exactly when `sep` does not occur, and
/// otherwise the least position of an occurrence.
pub proof fn lemma_first_match_props(s: Seq<char>, sep: Seq<char>)
    requires
        sep.len() > 0,
    ensures
        first_match(s, sep) == -1 ==> forall|i: int| !match_at(s, sep, i),
        first_match(s, sep) >= 0 ==> match_at(s, sep, first_match(s, sep)),
        first_match(s, sep) >= 0 ==> forall|j: int|
            0 <= j < first_match(s, sep) ==> !match_at(s, sep, j),
    decreases s.len(),
{
    if s.len() < sep.len() {
        assert(forall|i: int| !match_at(s, sep, i));
    } else if s.subrange(0, sep.len() as int) == sep {
    } else {
        lemma_first_match_props(s.drop_first(), sep);
        let r = first_match(s.drop_first(), sep);
        assert forall|i: int| 0 <= i implies (match_at(s.drop_first(), sep, i) <==> match_at(
            s,
            sep,
            i + 1,
        )) by {
            lemma_match_at_drop_first(s, sep, i);
        }
        if r < 0 {
            assert forall|i: int| !match_at(s, sep, i) by {
                if i > 0 {
                    assert(!match_at(s.drop_first(), sep, i - 1));
                }
            }
        } else {
            assert(match_at(s, sep, r + 1));
            assert forall|j: int| 0 <= j < r + 1 implies !match_at(s, sep, j) by {
                if j > 0 {
                    assert(!match_at(s.drop_first(), sep, j - 1));
                }
            }
        }
    }
}

/// The least occurrence determines `first_match`.
pub proof fn lemma_first_match_is(s: Seq<char>, sep: Seq<char>, m: int)
    requires
        sep.len() > 0,
        match_at(s, sep, m),
        forall|j: int| 0 <= j < m ==> !match_at(s, sep, j),
    ensures
        first_match(s, sep) == m,
    decreases s.len(),
{
    if m == 0 {
        assert(s.subrange(0, sep.len() as int) == sep);
    } else {
        assert(!match_at(s, sep, 0));
        assert(s.subrange(0, sep.len() as int) != sep);
        lemma_match_at_drop_first(s, sep, m - 1);
        assert forall|j: int| 0 <= j < m - 1 implies !match_at(s.drop_first(), sep, j) by {
            lemma_match_at_drop_first(s, sep, j);
        }
        lemma_first_match_is(s.drop_first(), sep, m - 1);
    }
}

/// No occurrence at or after `from`, given none before, means none at all.
pub proof fn lemma_first_match_none(s: Seq<char>, sep: Seq<char>)
    requires
        sep.len() > 0,
        forall|j: int| !match_at(s, sep, j),
    ensures
        first_match(s, sep) == -1,
{
    lemma_first_match_props(s, sep);
    if first_match(s, sep) >= 0 {
        assert(match_at(s, sep, first_match(s, sep)));
    }
}

/// `s` split on every occurrence of `sep`, in order.  A text without an
/// occurrence is a single field; a separator at the very end yields a
/// trailing empty field.  (The guards besides `m < 0` never fire; they
/// only keep the definition total.)
pub open spec fn split_text(s: Seq<char>, sep: Seq<char>) -> Seq<Seq<char>>
    decreases s.len(),
{
    let m = first_match(s, sep);
    if m < 0 || sep.len() == 0 || m + sep.len() > s.len() {
        seq![s]
    } else {
        seq![s.subrange(0, m)] + split_text(s.subrange(m + sep.len() as int, s.len() as int), sep)
    }
}

/// Copy of `v[a..b]`.
pub fn vec_slice(v: &Vec<char>, a: usize, b: usize) -> (r: Vec<char>)
    requires
        a <= b <= v@.len(),
    ensures
        r@ == v@.subrange(a as int, b as int),
{
    let mut r: Vec<char> = Vec::new();
    let mut i: usize = a;
    while i < b
        invariant
            a <= i <= b <= v@.len(),
            r@ == v@.subrange(a as int, i as int),
        decreases b - i,
    {
        r.push(v[i]);
        i = i + 1;
        proof {
            assert(r@ =~= v@.subrange(a as int, i as int));
        }
    }
    r
}

/// Does `sep` occur in `v` at position `i`?
fn occurs_at(v: &Vec<char>, i: usize, sep: &Vec<char>) -> (r: bool)
    requires
        i + sep@.len() <= v@.len(),
    ensures
        r == match_at(v@, sep@, i as int),
{
    let n: usize = v.len();
    let mut k: usize = 0;
    while k < sep.len()
        invariant
            k <= sep@.len(),
            n == v@.len(),
            i + sep@.len() <= n,
            forall|t: int| 0 <= t < k ==> v@[i + t] == sep@[t],
        decreases sep@.len() - k,
    {
        if v[i + k] != sep[k] {
            proof {
                assert(v@.subrange(i as int, i + sep@.len() as int)[k as int] == v@[i + k]);
            }
            return false;
        }
        k = k + 1;
    }
    proof {
        assert(v@.subrange(i as int, i + sep@.len() as int) =~= sep@);
    }
    true
}

/// First occurrence of `sep` in `v` at or after `from`, if any.
pub fn find_occurrence(v: &Vec<char>, from: usize, sep: &Vec<char>) -> (r: Option<usize>)
    requires
        from <= v@.len(),
        sep@.len() >= 1,
    ensures
        match r {
            Some(j) => from <= j && match_at(v@, sep@, j as int) && forall|t: int|
                from <= t < j ==> !match_at(v@, sep@, t),
            None => forall|t: int| from <= t ==> !match_at(v@, sep@, t),
        },
{
    let n: usize = v.len();
    let m: usize = sep.len();
    if m > n {
        return None;
    }
    let mut j: usize = from;
    while j <= n - m
        invariant
            from <= j <= n,
            m <= n,
            n == v@.len(),
            m == sep@.len(),
            m >= 1,
            forall|t: int| from <= t < j ==> !match_at(v@, sep@, t),
        decreases n - j,
    {
        if occurs_at(v, j, sep) {
            return Some(j);
        }
        j = j + 1;
    }
    proof {
        assert forall|t: int| from <= t implies !match_at(v@, sep@, t) by {
            if t < j {
            } else {
                assert(t + sep@.len() > v@.len());
            }
        }
    }
    None
}

/// Split `v` on every occurrence of `sep`.
pub fn split_by(v: &Vec<char>, sep: &Vec<char>) -> (r: Vec<Vec<char>>)
    requires
        sep@.len() >= 1,
    ensures
        r@.map_values(|f: Vec<char>| f@) == split_text(v@, sep@),
        r@.len() >= 1,
{
    let n: usize = v.len();
    let m: usize = sep.len();
    let mut out: Vec<Vec<char>> = Vec::new();
    let mut rs: usize = 0;
    proof {
        assert(v@.skip(0) =~= v@);
        assert(out@.map_values(|f: Vec<char>| f@) + split_text(v@, sep@) =~= split_text(v@, sep@));
    }
    loop
        invariant_except_break
            rs <= n,
            n == v@.len(),
            m == sep@.len(),
            m >= 1,
            split_text(v@, sep@) == out@.map_values(|f: Vec<char>| f@) + split_text(
                v@.skip(rs as int),
                sep@,
            ),
        ensures
            out@.map_values(|f: Vec<char>| f@) == split_text(v@, sep@),
            out@.len() >= 1,
        decreases n - rs,
    {
        let ghost suffix = v@.skip(rs as int);
        match find_occurrence(v, rs, sep) {
            None => {
                let field = vec_slice(v, rs, n);
                proof {
                    assert forall|t: int| !match_at(suffix, sep@, t) by {
                        if 0 <= t {
                            if match_at(suffix, sep@, t) {
                                assert(suffix.subrange(t, t + sep@.len() as int) =~= v@.subrange(
                                    rs + t,
                                    rs + t + sep@.len() as int,
                                ));
                                assert(match_at(v@, sep@, rs + t));
                            }
                        }
                    }
                    lemma_first_match_none(suffix, sep@);
                    assert(split_text(suffix, sep@) == seq![suffix]);
                    assert(field@ =~= suffix);
                    assert((out@.push(field)).map_values(|f: Vec<char>| f@) =~= out@.map_values(
                        |f: Vec<char>| f@,
                    ).push(suffix));
                    assert(out@.map_values(|f: Vec<char>| f@).push(suffix) =~= out@.map_values(
                        |f: Vec<char>| f@,
                    ) + seq![suffix]);
                }
                out.push(field);
                break;
            },
            Some(j) => {
                let field = vec_slice(v, rs, j);
                proof {
                    let fm = j - rs;
                    assert(suffix.subrange(fm, fm + sep@.len() as int) =~= v@.subrange(
                        j as int,
                        j + sep@.len() as int,
                    ));
                    assert(match_at(suffix, sep@, fm));
                    assert forall|t: int| 0 <= t < fm implies !match_at(suffix, sep@, t) by {
                        if match_at(suffix, sep@, t) {
                            assert(suffix.subrange(t, t + sep@.len() as int) =~= v@.subrange(
                                rs + t,
                                rs + t + sep@.len() as int,
                            ));
                            assert(match_at(v@, sep@, rs + t));
                        }
                    }
                    lemma_first_match_is(suffix, sep@, fm);
                    assert(split_text(suffix, sep@) == seq![suffix.subrange(0, fm)] + split_text(
                        suffix.subrange(fm + sep@.len() as int, suffix.len() as int),
                        sep@,
                    ));
                    assert(field@ =~= suffix.subrange(0, fm));
                    assert(suffix.subrange(fm + sep@.len() as int, suffix.len() as int)
                        =~= v@.skip(j + sep@.len() as int));
                    assert((out@.push(field)).map_values(|f: Vec<char>| f@) =~= out@.map_values(
                        |f: Vec<char>| f@,
                    ).push(field@));
                    assert(out@.map_values(|f: Vec<char>| f@) + split_text(suffix, sep@)
                        =~= (out@.push(field)).map_values(|f: Vec<char>| f@) + split_text(
                        v@.skip(j + sep@.len() as int),
                        sep@,
                    ));
                }
                out.push(field);
                rs = j + m;
            },
        }
    }
    proof {
        assert(out@.map_values(|f: Vec<char>| f@).len() == out@.len());
    }
    out
}

/// ASCII whitespace as it occurs in command output.
pub open spec fn is_space_char(c: char) -> bool {
    c == ' ' || c == '\t' || c == '\r' || c == '\n'
}

pub open spec fn trim_left_spec(s: Seq<char>) -> Seq<char>
    decreases s.len(),
{
    if s.len() > 0 && is_space_char(s[0]) {
        trim_left_spec(s.drop_first())
    } else {
        s
    }
}

pub open spec fn trim_right_spec(s: Seq<char>) -> Seq<char>
    decreases s.len(),
{
    if s.len() > 0 && is_space_char(s.last()) {
        trim_right_spec(s.drop_last())
    } else {
        s
    }
}

/// `s` with leading and trailing whitespace removed.
pub open spec fn trimmed(s: Seq<char>) -> Seq<char> {
    trim_right_spec(trim_left_spec(s))
}

fn is_space(c: char) -> (r: bool)
    ensures
        r == is_space_char(c),
{
    c == ' ' || c == '\t' || c == '\r' || c == '\n'
}

/// Strip leading and trailing whitespace.
pub fn trim_chars(v: &Vec<char>) -> (r: Vec<char>)
    ensures
        r@ == trimmed(v@),
{
    let n: usize = v.len();
    let mut a: usize = 0;
    proof {
        assert(v@.skip(0) =~= v@);
    }
    while a < n && is_space(v[a])
        invariant
            a <= n,
            n == v@.len(),
            trim_left_spec(v@) == trim_left_spec(v@.skip(a as int)),
        decreases n - a,
    {
        proof {
            assert(v@.skip(a as int).drop_first() =~= v@.skip(a + 1 as int));
        }
        a = a + 1;
    }
    proof {
        if a < n {
            assert(trim_left_spec(v@.skip(a as int)) == v@.skip(a as int));
        } else {
            assert(v@.skip(a as int).len() == 0);
        }
    }
    let mut b: usize = n;
    while b > a && is_space(v[b - 1])
        invariant
            a <= b <= n,
            n == v@.len(),
            trim_left_spec(v@) == v@.skip(a as int),
            trim_right_spec(v@.skip(a as int)) == trim_right_spec(v@.subrange(a as int, b as int)),
        decreases b,
    {
        proof {
            assert(v@.subrange(a as int, b as int).last() == v@[b - 1]);
            assert(v@.subrange(a as int, b as int).drop_last() =~= v@.subrange(
                a as int,
                b - 1 as int,
            ));
        }
        b = b - 1;
    }
    proof {
        assert(v@.skip(a as int) =~= v@.subrange(a as int, n as int));
        if b > a {
            assert(v@.subrange(a as int, b as int).last() == v@[b - 1]);
            assert(trim_right_spec(v@.subrange(a as int, b as int)) == v@.subrange(
                a as int,
                b as int,
            ));
        } else {
            assert(v@.subrange(a as int, b as int).len() == 0);
        }
    }
    vec_slice(v, a, b)
}

/// A subject trimmed to at most 40 characters, with newline, carriage
/// return and tab each replaced by one space.
pub open spec fn cleaned_subject(s: Seq<char>) -> Seq<char> {
    let t = if s.len() > 40 {
        s.subrange(0, 40)
    } else {
        s
    };
    t.map_values(|c: char| if (c == '\n' || c == '\r' || c == '\t') { ' ' } else { c })
}

/// Truncate a tag subject to 40 characters, then normalize whitespace.
pub fn clean_subject(v: &Vec<char>) -> (r: Vec<char>)
    ensures
        r@ == cleaned_subject(v@),
{
    let cap: usize = if v.len() > 40 {
        40
    } else {
        v.len()
    };
    let mut out: Vec<char> = Vec::new();
    let mut i: usize = 0;
    let ghost t: Seq<char> = if v@.len() > 40 {
        v@.subrange(0, 40)
    } else {
        v@
    };
    while i < cap
        invariant
            i <= cap <= v@.len(),
            cap == t.len(),
            t == (if v@.len() > 40 {
                v@.subrange(0, 40)
            } else {
                v@
            }),
            out@ == t.subrange(0, i as int).map_values(
                |c: char| if (c == '\n' || c == '\r' || c == '\t') {
                    ' '
                } else {
                    c
                },
            ),
        decreases cap - i,
    {
        let c = v[i];
        proof {
            assert(t[i as int] == v@[i as int]);
        }
        if c == '\n' || c == '\r' || c == '\t' {
            out.push(' ');
        } else {
            out.push(c);
        }
        i = i + 1;
        proof {
            assert(out@ =~= t.subrange(0, i as int).map_values(
                |c: char| if (c == '\n' || c == '\r' || c == '\t') {
                    ' '
                } else {
                    c
                },
            ));
        }
    }
    proof {
        assert(t.subrange(0, cap as int) =~= t);
    }
    out
}

pub open spec fn is_digit_char(c: char) -> bool {
    48 <= (c as u32) && (c as u32) <= 57
}

pub open spec fn digit_val(c: char) -> int {
    (c as u32) - 48
}

pub open spec fn all_digits(s: Seq<char>) -> bool {
    forall|i: int| 0 <= i < s.len() ==> is_digit_char(#[trigger] s[i])
}

/// The non-negative integer denoted by a digit string.
pub open spec fn digits_value(s: Seq<char>) -> int
    decreases s.len(),
{
    if s.len() == 0 {
        0
    } else {
        digits_value(s.drop_last()) * 10 + digit_val(s.last())
    }
}

/// The digits of an integer text: everything after an optional sign.
pub open spec fn digits_part(s: Seq<char>) -> Seq<char> {
    if s.len() > 0 && (s[0] == '-' || s[0] == '+') {
        s.drop_first()
    } else {
        s
    }
}

/// `s` is an integer in the form accepted here: an optional sign
/// followed by at least one digit.
pub open spec fn is_int_text(s: Seq<char>) -> bool {
    digits_part(s).len() > 0 && all_digits(digits_part(s))
}

/// The mathematical value of an integer text.
pub open spec fn int_text_value(s: Seq<char>) -> int {
    if s.len() > 0 && s[0] == '-' {
        -digits_value(digits_part(s))
    } else {
        digits_value(digits_part(s))
    }
}

proof fn lemma_digits_value_nonneg(s: Seq<char>)
    requires
        all_digits(s),
    ensures
        digits_value(s) >= 0,
    decreases s.len(),
{
    if s.len() > 0 {
        assert(all_digits(s.drop_last()));
        lemma_digits_value_nonneg(s.drop_last());
    }
}

/// A digit string's value only grows as digits are appended.
pub proof fn lemma_digits_value_prefix_le(s: Seq<char>, k: int)
    requires
        all_digits(s),
        0 <= k <= s.len(),
    ensures
        0 <= digits_value(s.subrange(0, k)) <= digits_value(s),
    decreases s.len() - k,
{
    assert(all_digits(s.subrange(0, k)));
    lemma_digits_value_nonneg(s.subrange(0, k));
    if k == s.len() {
        assert(s.subrange(0, k) =~= s);
    } else {
        lemma_digits_value_prefix_le(s, k + 1);
        assert(s.subrange(0, k + 1).drop_last() =~= s.subrange(0, k));
        assert(digits_value(s.subrange(0, k + 1)) == digits_value(s.subrange(0, k)) * 10
            + digit_val(s.subrange(0, k + 1).last()));
        lemma_digits_value_nonneg(s.subrange(0, k));
        assert(digits_value(s.subrange(0, k)) <= digits_value(s.subrange(0, k)) * 10) by (
        nonlinear_arith)
            requires
                digits_value(s.subrange(0, k)) >= 0,
        ;
    }
}

fn exec_is_digit(c: char) -> (r: bool)
    ensures
        r == is_digit_char(c),
{
    let u: u32 = c as u32;
    48 <= u && u <= 57
}

/// Parse a decimal integer (optional sign, then digits).  Returns the
/// value exactly when the text is well-formed and fits an `i64`.
pub fn parse_i64(v: &Vec<char>) -> (r: Option<i64>)
    ensures
        r matches Some(n) ==> is_int_text(v@) && n == int_text_value(v@),
        is_int_text(v@) && i64::MIN <= int_text_value(v@) <= i64::MAX ==> r is Some,
{
    let n: usize = v.len();
    if n == 0 {
        return None;
    }
    let c0 = v[0];
    let neg: bool = c0 == '-';
    let start: usize = if c0 == '-' || c0 == '+' {
        1
    } else {
        0
    };
    let ghost d: Seq<char> = digits_part(v@);
    proof {
        if start == 1 {
            assert(d =~= v@.skip(1));
        } else {
            assert(d =~= v@.skip(0));
            assert(d =~= v@);
        }
    }
    if n == start {
        return None;
    }
    // Accumulate negatively so that i64::MIN is representable.
    let mut acc: i64 = 0;
    let mut i: usize = start;
    while i < n
        invariant
            start <= i <= n,
            n == v@.len(),
            d == digits_part(v@),
            d == v@.skip(start as int),
            all_digits(d.subrange(0, i - start)),
            acc == -digits_value(d.subrange(0, i - start)),
            acc <= 0,
        decreases n - i,
    {
        let c = v[i];
        if !exec_is_digit(c) {
            proof {
                assert(d[i - start] == c);
                if is_int_text(v@) {
                    assert(is_digit_char(d[i - start]));
                }
            }
            return None;
        }
        let dv: i64 = (c as u32 as i64) - 48;
        let ghost pre = d.subrange(0, i - start);
        let ghost cur = d.subrange(0, i + 1 - start);
        proof {
            assert(cur.drop_last() =~= pre);
            assert(cur.last() == d[i - start]);
            assert(d[i - start] == v@[i as int]);
            assert(all_digits(cur));
            assert(digits_value(cur) == digits_value(pre) * 10 + digit_val(c));
            assert(digit_val(c) == dv);
        }
        let acc10 = match acc.checked_mul(10) {
            Some(x) => x,
            None => {
                proof {
                    assert(digits_value(pre) * 10 > -(i64::MIN as int));
                    lemma_parse_overflow(v@, (i + 1 - start) as int);
                }
                return None;
            },
        };
        let acc2 = match acc10.checked_sub(dv) {
            Some(x) => x,
            None => {
                proof {
                    assert(digits_value(cur) > -(i64::MIN as int));
                    lemma_parse_overflow(v@, (i + 1 - start) as int);
                }
                return None;
            },
        };
        acc = acc2;
        i = i + 1;
    }
    proof {
        assert(d.subrange(0, n - start) =~= d);
    }
    if neg {
        Some(acc)
    } else {
        if acc == i64::MIN {
            proof {
                assert(int_text_value(v@) == digits_value(d));
            }
            return None;
        }
        Some(-acc)
    }
}

/// If an already-scanned digit prefix exceeds the `i64` range, the whole
/// text is out of range.
proof fn lemma_parse_overflow(s: Seq<char>, k: int)
    requires
        0 <= k <= digits_part(s).len(),
        all_digits(digits_part(s).subrange(0, k)),
        digits_value(digits_part(s).subrange(0, k)) > -(i64::MIN as int),
    ensures
        !(is_int_text(s) && i64::MIN <= int_text_value(s) <= i64::MAX),
{
    if is_int_text(s) {
        lemma_digits_value_prefix_le(digits_part(s), k);
    }
}

pub open spec fn digit_char_of(d: int) -> char {
    if d == 0 {
        '0'
    } else if d == 1 {
        '1'
    } else if d == 2 {
        '2'
    } else if d == 3 {
        '3'
    } else if d == 4 {
        '4'
    } else if d == 5 {
        '5'
    } else if d == 6 {
        '6'
    } else if d == 7 {
        '7'
    } else if d == 8 {
        '8'
    } else {
        '9'
    }
}

/// Decimal digits of `n`, empty for `n <= 0`.
pub open spec fn dec_digits_of(n: int) -> Seq<char>
    decreases n,
{
    if n <= 0 {
        Seq::empty()
    } else {
        dec_digits_of(n / 10).push(digit_char_of(n % 10))
    }
}

/// Decimal text of a non-negative integer.
pub open spec fn dec_text_of(n: int) -> Seq<char> {
    if n == 0 {
        seq!['0']
    } else {
        dec_digits_of(n)
    }
}

fn exec_digit_char(d: u64) -> (r: char)
    requires
        d < 10,
    ensures
        r == digit_char_of(d as int),
{
    if d == 0 {
        '0'
    } else if d == 1 {
        '1'
    } else if d == 2 {
        '2'
    } else if d == 3 {
        '3'
    } else if d == 4 {
        '4'
    } else if d == 5 {
        '5'
    } else if d == 6 {
        '6'
    } else if d == 7 {
        '7'
    } else if d == 8 {
        '8'
    } else {
        '9'
    }
}

fn push_dec_digits(out: &mut Vec<char>, n: u64)
    ensures
        final(out)@ == old(out)@ + dec_digits_of(n as int),
    decreases n,
{
    if n == 0 {
        proof {
            assert(old(out)@ + dec_digits_of(0) =~= old(out)@);
        }
    } else {
        push_dec_digits(out, n / 10);
        out.push(exec_digit_char(n % 10));
        proof {
            assert(old(out)@ + dec_digits_of(n as int) =~= (old(out)@ + dec_digits_of(
                n as int / 10,
            )).push(digit_char_of(n as int % 10)));
        }
    }
}

/// Every character of a decimal rendering is a digit.
pub proof fn lemma_dec_text_digits(n: int)
    requires
        0 <= n,
    ensures
        all_digits(dec_text_of(n)),
        dec_text_of(n).len() > 0,
    decreases n,
{
    if n == 0 {
        assert(is_digit_char(dec_text_of(0)[0]));
    } else {
        lemma_dec_digits_all(n);
        lemma_dec_digits_nonempty(n);
    }
}

proof fn lemma_dec_digits_all(n: int)
    requires
        0 <= n,
    ensures
        all_digits(dec_digits_of(n)),
    decreases n,
{
    if n > 0 {
        lemma_dec_digits_all(n / 10);
        let s = dec_digits_of(n);
        assert(s == dec_digits_of(n / 10).push(digit_char_of(n % 10)));
        assert(is_digit_char(digit_char_of(n % 10)));
        assert forall|i: int| 0 <= i < s.len() implies is_digit_char(#[trigger] s[i]) by {
            if i < s.len() - 1 {
                assert(s[i] == dec_digits_of(n / 10)[i]);
            }
        }
    }
}

proof fn lemma_dec_digits_nonempty(n: int)
    requires
        1 <= n,
    ensures
        dec_digits_of(n).len() > 0,
{
}

/// Decimal text of `n`.
pub fn u64_to_text(n: u64) -> (r: String)
    ensures
        r@ == dec_text_of(n as int),
{
    let mut out: Vec<char> = Vec::new();
    if n == 0 {
        out.push('0');
        proof {
            assert(out@ =~= seq!['0']);
        }
    } else {
        push_dec_digits(&mut out, n);
        proof {
            assert(Seq::<char>::empty() + dec_digits_of(n as int) =~= dec_digits_of(n as int));
        }
    }
    string_of_chars(&out)
}

} // verus!

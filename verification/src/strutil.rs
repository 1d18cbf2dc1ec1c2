use vstd::prelude::*;

verus! {

// ---------------------------------------------------------------------------
// Characters
// ---------------------------------------------------------------------------

/// The Unicode `White_Space` code points, the set that `char::is_whitespace`
/// tests and that `str::trim` strips.
pub open spec fn is_space_char(c: char) -> bool {
    let u = c as u32;
    (9 <= u && u <= 13) || u == 32 || u == 0x85 || u == 0xa0 || u == 0x1680 || (0x2000 <= u
        && u <= 0x200a) || u == 0x2028 || u == 0x2029 || u == 0x202f || u == 0x205f || u == 0x3000
}

pub fn is_space(c: char) -> (r: bool)
    ensures
        r == is_space_char(c),
{
    let u = c as u32;
    (9 <= u && u <= 13) || u == 32 || u == 0x85 || u == 0xa0 || u == 0x1680 || (0x2000 <= u
        && u <= 0x200a) || u == 0x2028 || u == 0x2029 || u == 0x202f || u == 0x205f || u == 0x3000
}

pub open spec fn is_digit_char(c: char) -> bool {
    48 <= c as u32 && c as u32 <= 57
}

pub open spec fn digit_val(c: char) -> int {
    c as u32 - 48
}

pub fn is_digit(c: char) -> (r: bool)
    ensures
        r == is_digit_char(c),
{
    let u = c as u32;
    48 <= u && u <= 57
}

// ---------------------------------------------------------------------------
// Equality and searching
// ---------------------------------------------------------------------------

/// Character-wise equality of two string slices.
pub fn str_eq(a: &str, b: &str) -> (r: bool)
    ensures
        r == (a@ == b@),
{
    let an = a.unicode_len();
    let bn = b.unicode_len();
    if an != bn {
        return false;
    }
    let mut i: usize = 0;
    while i < an
        invariant
            i <= an,
            an == a@.len(),
            an == b@.len(),
            forall|j: int| 0 <= j < i ==> a@[j] == b@[j],
        decreases an - i,
    {
        if a.get_char(i) != b.get_char(i) {
            return false;
        }
        i += 1;
    }
    proof {
        assert(a@ =~= b@);
    }
    true
}

/// Does `pat` stand in `s` at position `i`?
pub open spec fn match_at(s: Seq<char>, pat: Seq<char>, i: int) -> bool {
    0 <= i && i + pat.len() <= s.len() && s.subrange(i, i + pat.len() as int) == pat
}

pub fn eq_at(s: &str, pat: &str, i: usize) -> (r: bool)
    ensures
        r == match_at(s@, pat@, i as int),
{
    let n = s.unicode_len();
    let m = pat.unicode_len();
    if i > n || m > n - i {
        return false;
    }
    let mut j: usize = 0;
    while j < m
        invariant
            j <= m,
            i + m <= n,
            n == s@.len(),
            m == pat@.len(),
            forall|k: int| 0 <= k < j ==> s@[i + k] == pat@[k],
        decreases m - j,
    {
        if s.get_char(i + j) != pat.get_char(j) {
            proof {
                if match_at(s@, pat@, i as int) {
                    assert(s@.subrange(i as int, i + m)[j as int] == s@[i + j]);
                }
            }
            return false;
        }
        j += 1;
    }
    proof {
        assert(s@.subrange(i as int, i + m) =~= pat@);
    }
    true
}

/// Index of the leftmost occurrence of `pat` in `s`, if any.
pub open spec fn find_pat(s: Seq<char>, pat: Seq<char>) -> Option<int>
    decreases s.len(),
{
    if s.len() < pat.len() {
        None
    } else if pat.len() == 0 || s.take(pat.len() as int) == pat {
        Some(0int)
    } else {
        match find_pat(s.drop_first(), pat) {
            Some(i) => Some(i + 1),
            None => None,
        }
    }
}

pub proof fn lemma_match_at_shift(s: Seq<char>, pat: Seq<char>, j: int)
    requires
        s.len() > 0,
        j >= 0,
    ensures
        match_at(s, pat, j + 1) <==> match_at(s.drop_first(), pat, j),
{
    if match_at(s, pat, j + 1) {
        assert(s.drop_first().subrange(j, j + pat.len() as int) =~= s.subrange(
            j + 1,
            j + 1 + pat.len() as int,
        ));
    }
    if match_at(s.drop_first(), pat, j) {
        assert(s.subrange(j + 1, j + 1 + pat.len() as int) =~= s.drop_first().subrange(
            j,
            j + pat.len() as int,
        ));
    }
}

/// `find_pat` names the leftmost match, and `None` means there is none.
pub proof fn lemma_find_pat(s: Seq<char>, pat: Seq<char>)
    ensures
        match find_pat(s, pat) {
            Some(i) => match_at(s, pat, i) && (forall|j: int|
                0 <= j < i ==> !match_at(s, pat, j)),
            None => forall|j: int| !match_at(s, pat, j),
        },
    decreases s.len(),
{
    if s.len() < pat.len() {
    } else if pat.len() == 0 || s.take(pat.len() as int) == pat {
        if pat.len() == 0 {
            assert(s.take(0) =~= pat);
        }
        assert(s.subrange(0, pat.len() as int) =~= s.take(pat.len() as int));
    } else {
        lemma_find_pat(s.drop_first(), pat);
        assert forall|j: int| j >= 0 implies (match_at(s, pat, j + 1) <==> match_at(
            s.drop_first(),
            pat,
            j,
        )) by {
            lemma_match_at_shift(s, pat, j);
        }
        assert(!match_at(s, pat, 0)) by {
            if match_at(s, pat, 0) {
                assert(s.subrange(0, pat.len() as int) =~= s.take(pat.len() as int));
            }
        }
        match find_pat(s.drop_first(), pat) {
            Some(i) => {
                assert(match_at(s, pat, i + 1));
                assert forall|j: int| 0 <= j < i + 1 implies !match_at(s, pat, j) by {
                    if j > 0 {
                        lemma_match_at_shift(s, pat, j - 1);
                    }
                }
            },
            None => {
                assert forall|j: int| true implies !match_at(s, pat, j) by {
                    if j > 0 {
                        lemma_match_at_shift(s, pat, j - 1);
                    }
                }
            },
        }
    }
}

/// Search left to right starting at `from`; result is an absolute index.
pub fn find_from(s: &str, pat: &str, from: usize) -> (r: Option<usize>)
    ensures
        match r {
            Some(i) => from <= i && match_at(s@, pat@, i as int) && (forall|j: int|
                from <= j < i ==> !match_at(s@, pat@, j)),
            None => forall|j: int| j >= from ==> !match_at(s@, pat@, j),
        },
{
    let n = s.unicode_len();
    let m = pat.unicode_len();
    if m > n || from > n - m {
        return None;
    }
    if m == 0 {
        proof {
            assert(s@.subrange(from as int, from as int) =~= pat@);
        }
        return Some(from);
    }
    let mut i: usize = from;
    while i <= n - m
        invariant
            from <= i,
            0 < m <= n,
            n == s@.len(),
            m == pat@.len(),
            i <= n - m + 1,
            forall|j: int| from <= j < i ==> !match_at(s@, pat@, j),
        decreases n - i,
    {
        if eq_at(s, pat, i) {
            return Some(i);
        }
        i += 1;
    }
    None
}

pub fn str_contains(s: &str, pat: &str) -> (r: bool)
    ensures
        r == exists|i: int| match_at(s@, pat@, i),
{
    match find_from(s, pat, 0) {
        Some(i) => {
            proof {
                assert(match_at(s@, pat@, i as int));
            }
            true
        },
        None => false,
    }
}

pub fn str_contains_char(s: &str, c: char) -> (r: bool)
    ensures
        r == s@.contains(c),
{
    let n = s.unicode_len();
    let mut i: usize = 0;
    while i < n
        invariant
            i <= n,
            n == s@.len(),
            forall|j: int| 0 <= j < i ==> s@[j] != c,
        decreases n - i,
    {
        if s.get_char(i) == c {
            return true;
        }
        i += 1;
    }
    proof {
        if s@.contains(c) {
            let j = choose|j: int| 0 <= j < s@.len() && s@[j] == c;
            assert(s@[j] != c);
        }
    }
    false
}

/// Index of the rightmost occurrence of `c` in `s`, if any.
pub fn rfind_char(s: &str, c: char) -> (r: Option<usize>)
    ensures
        match r {
            Some(i) => i < s@.len() && s@[i as int] == c && (forall|j: int|
                i < j < s@.len() ==> s@[j] != c),
            None => forall|j: int| 0 <= j < s@.len() ==> s@[j] != c,
        },
{
    let n = s.unicode_len();
    let mut i: usize = n;
    while i > 0
        invariant
            i <= n,
            n == s@.len(),
            forall|j: int| i <= j < n ==> s@[j] != c,
        decreases i,
    {
        i -= 1;
        if s.get_char(i) == c {
            return Some(i);
        }
    }
    None
}

} // verus!

verus! {

// ---------------------------------------------------------------------------
// Splitting
// ---------------------------------------------------------------------------

pub proof fn lemma_match_at_skip(s: Seq<char>, pat: Seq<char>, pos: int, k: int)
    requires
        0 <= pos <= s.len(),
        0 <= k,
    ensures
        match_at(s.skip(pos), pat, k) <==> match_at(s, pat, pos + k),
{
    if match_at(s.skip(pos), pat, k) {
        assert(s.subrange(pos + k, pos + k + pat.len() as int) =~= s.skip(pos).subrange(
            k,
            k + pat.len() as int,
        ));
    }
    if match_at(s, pat, pos + k) {
        assert(s.skip(pos).subrange(k, k + pat.len() as int) =~= s.subrange(
            pos + k,
            pos + k + pat.len() as int,
        ));
    }
}

pub proof fn lemma_find_pat_skip_some(s: Seq<char>, pat: Seq<char>, pos: int, i: int)
    requires
        0 <= pos <= s.len(),
        pos <= i,
        match_at(s, pat, i),
        forall|j: int| pos <= j < i ==> !match_at(s, pat, j),
    ensures
        find_pat(s.skip(pos), pat) == Some(i - pos),
{
    lemma_find_pat(s.skip(pos), pat);
    lemma_match_at_skip(s, pat, pos, i - pos);
    match find_pat(s.skip(pos), pat) {
        Some(k) => {
            if k < i - pos {
                lemma_match_at_skip(s, pat, pos, k);
            }
        },
        None => {},
    }
}

pub proof fn lemma_find_pat_skip_none(s: Seq<char>, pat: Seq<char>, pos: int)
    requires
        0 <= pos <= s.len(),
        forall|j: int| j >= pos ==> !match_at(s, pat, j),
    ensures
        find_pat(s.skip(pos), pat) is None,
{
    lemma_find_pat(s.skip(pos), pat);
    match find_pat(s.skip(pos), pat) {
        Some(k) => {
            lemma_match_at_skip(s, pat, pos, k);
        },
        None => {},
    }
}

/// The pieces of `s` between the occurrences of `pat`, left to right,
/// the way `str::split` with a non-empty pattern yields them.
pub open spec fn split_pat(s: Seq<char>, pat: Seq<char>) -> Seq<Seq<char>>
    decreases s.len(),
        when pat.len() > 0
        via split_pat_decreases
{
    match find_pat(s, pat) {
        Some(i) => seq![s.take(i)] + split_pat(s.skip(i + pat.len() as int), pat),
        None => seq![s],
    }
}

#[via_fn]
proof fn split_pat_decreases(s: Seq<char>, pat: Seq<char>) {
    lemma_find_pat(s, pat);
}

/// The views of a sequence of owned strings.
pub open spec fn views_of(v: Seq<String>) -> Seq<Seq<char>> {
    v.map_values(|x: String| x@)
}

pub proof fn lemma_views_push(v: Seq<String>, s: String)
    ensures
        views_of(v.push(s)) =~= views_of(v).push(s@),
{
}

pub fn split_str(s: &str, pat: &str) -> (r: Vec<String>)
    requires
        pat@.len() > 0,
    ensures
        views_of(r@) == split_pat(s@, pat@),
{
    let n = s.unicode_len();
    let m = pat.unicode_len();
    let mut out: Vec<String> = Vec::new();
    let mut pos: usize = 0;
    proof {
        assert(s@.skip(0) =~= s@);
        assert(views_of(out@) + split_pat(s@, pat@) =~= split_pat(s@, pat@));
    }
    loop
        invariant
            pos <= n,
            n == s@.len(),
            m == pat@.len(),
            m > 0,
            split_pat(s@, pat@) == views_of(out@) + split_pat(s@.skip(pos as int), pat@),
        decreases n - pos,
    {
        match find_from(s, pat, pos) {
            Some(i) => {
                let tok = s.substring_char(pos, i).to_owned();
                proof {
                    lemma_find_pat_skip_some(s@, pat@, pos as int, i as int);
                    assert(s@.skip(pos as int).take(i - pos) =~= s@.subrange(pos as int, i as int));
                    assert(s@.skip(pos as int).skip(i - pos + m) =~= s@.skip(i + m));
                    lemma_views_push(out@, tok);
                    assert(views_of(out@.push(tok)) + split_pat(s@.skip(i + m), pat@) =~= views_of(
                        out@,
                    ) + split_pat(s@.skip(pos as int), pat@));
                }
                out.push(tok);
                pos = i + m;
            },
            None => {
                let tok = s.substring_char(pos, n).to_owned();
                proof {
                    lemma_find_pat_skip_none(s@, pat@, pos as int);
                    assert(s@.skip(pos as int) =~= s@.subrange(pos as int, n as int));
                    lemma_views_push(out@, tok);
                    assert(views_of(out@.push(tok)) =~= views_of(out@) + seq![s@.skip(pos as int)]);
                }
                out.push(tok);
                return out;
            },
        }
    }
}

// ---------------------------------------------------------------------------
// Trimming
// ---------------------------------------------------------------------------

pub open spec fn trim_front(s: Seq<char>) -> Seq<char>
    decreases s.len(),
{
    if s.len() > 0 && is_space_char(s[0]) {
        trim_front(s.drop_first())
    } else {
        s
    }
}

pub open spec fn trim_back(s: Seq<char>) -> Seq<char>
    decreases s.len(),
{
    if s.len() > 0 && is_space_char(s[s.len() - 1]) {
        trim_back(s.drop_last())
    } else {
        s
    }
}

/// What `str::trim` leaves of `s`.
pub open spec fn trim_spec(s: Seq<char>) -> Seq<char> {
    trim_back(trim_front(s))
}

pub fn str_trim(s: &str) -> (r: String)
    ensures
        r@ == trim_spec(s@),
{
    let n = s.unicode_len();
    let mut a: usize = 0;
    proof {
        assert(s@.skip(0) =~= s@);
    }
    while a < n && is_space(s.get_char(a))
        invariant
            a <= n,
            n == s@.len(),
            trim_front(s@) == trim_front(s@.skip(a as int)),
        decreases n - a,
    {
        proof {
            assert(s@.skip(a as int).drop_first() =~= s@.skip(a as int + 1));
        }
        a += 1;
    }
    proof {
        assert(trim_front(s@) == s@.skip(a as int));
    }
    let mut b: usize = n;
    while b > a && is_space(s.get_char(b - 1))
        invariant
            a <= b <= n,
            n == s@.len(),
            trim_front(s@) == s@.skip(a as int),
            trim_back(s@.skip(a as int)) == trim_back(s@.subrange(a as int, b as int)),
        decreases b,
    {
        proof {
            assert(s@.subrange(a as int, b as int).drop_last() =~= s@.subrange(
                a as int,
                b as int - 1,
            ));
        }
        b -= 1;
    }
    proof {
        assert(trim_back(s@.subrange(a as int, b as int)) == s@.subrange(a as int, b as int));
    }
    s.substring_char(a, b).to_owned()
}

} // verus!

verus! {

// ---------------------------------------------------------------------------
// Decimal numbers
// ---------------------------------------------------------------------------

pub open spec fn is_digit_seq(s: Seq<char>) -> bool {
    s.len() > 0 && forall|i: int| 0 <= i < s.len() ==> is_digit_char(s[i])
}

/// Value of a string of decimal digits.
pub open spec fn digits_val(s: Seq<char>) -> int
    decreases s.len(),
{
    if s.len() == 0 {
        0
    } else {
        digits_val(s.drop_last()) * 10 + digit_val(s.last())
    }
}

/// What `str::parse::<usize>` yields: the value, or `None` where the text
/// is not a number that fits.
pub open spec fn parse_usize_ok(s: Seq<char>) -> Option<int> {
    let body = if s.len() > 0 && s[0] == '+' {
        s.drop_first()
    } else {
        s
    };
    if is_digit_seq(body) && digits_val(body) <= usize::MAX as int {
        Some(digits_val(body))
    } else {
        None
    }
}

/// What `str::parse::<usize>` followed by `unwrap_or(0)` yields.
pub open spec fn parse_usize_spec(s: Seq<char>) -> int {
    match parse_usize_ok(s) {
        Some(v) => v,
        None => 0,
    }
}

pub proof fn lemma_digits_val_nonneg(s: Seq<char>)
    requires
        forall|i: int| 0 <= i < s.len() ==> is_digit_char(s[i]),
    ensures
        digits_val(s) >= 0,
    decreases s.len(),
{
    if s.len() > 0 {
        lemma_digits_val_nonneg(s.drop_last());
    }
}

pub proof fn lemma_digits_prefix_le(s: Seq<char>, k: int)
    requires
        forall|i: int| 0 <= i < s.len() ==> is_digit_char(s[i]),
        0 <= k <= s.len(),
    ensures
        digits_val(s.take(k)) <= digits_val(s),
    decreases s.len() - k,
{
    if k == s.len() {
        assert(s.take(k) =~= s);
    } else {
        lemma_digits_prefix_le(s, k + 1);
        lemma_digits_val_nonneg(s.take(k));
        assert(s.take(k + 1).drop_last() =~= s.take(k));
        assert(digits_val(s.take(k + 1)) == digits_val(s.take(k)) * 10 + digit_val(s[k]));
    }
}

pub fn parse_usize_or_zero(s: &str) -> (r: usize)
    ensures
        r as int == parse_usize_spec(s@),
{
    match parse_usize_opt(s) {
        Some(v) => v,
        None => 0,
    }
}

pub fn parse_usize_opt(s: &str) -> (r: Option<usize>)
    ensures
        match r {
            Some(v) => parse_usize_ok(s@) == Some(v as int),
            None => parse_usize_ok(s@) is None,
        },
{
    let n = s.unicode_len();
    let start: usize = if n > 0 && s.get_char(0) == '+' {
        1
    } else {
        0
    };
    let ghost body = if s@.len() > 0 && s@[0] == '+' {
        s@.drop_first()
    } else {
        s@
    };
    proof {
        assert(body =~= s@.skip(start as int));
    }
    if start == n {
        return None;
    }
    let mut i = start;
    let mut acc: usize = 0;
    while i < n
        invariant
            start <= i <= n,
            start < n,
            n == s@.len(),
            body == s@.skip(start as int),
            body == (if s@.len() > 0 && s@[0] == '+' {
                s@.drop_first()
            } else {
                s@
            }),
            forall|j: int| start <= j < i ==> is_digit_char(s@[j]),
            acc as int == digits_val(s@.subrange(start as int, i as int)),
        decreases n - i,
    {
        let c = s.get_char(i);
        if !is_digit(c) {
            proof {
                assert(!is_digit_char(body[i - start]));
            }
            return None;
        }
        let d = (c as u32 - 48) as usize;
        if acc > (usize::MAX - d) / 10 {
            proof {
                assert(acc * 10 + d > usize::MAX) by (nonlinear_arith)
                    requires
                        acc > (usize::MAX - d) / 10,
                        d <= 9,
                ;
                assert(s@.subrange(start as int, i as int + 1).drop_last() =~= s@.subrange(
                    start as int,
                    i as int,
                ));
                assert(digits_val(s@.subrange(start as int, i as int + 1)) == acc * 10 + d);
                if is_digit_seq(body) {
                    assert(body.take(i - start + 1) =~= s@.subrange(start as int, i as int + 1));
                    lemma_digits_prefix_le(body, i - start + 1);
                }
            }
            return None;
        }
        proof {
            assert(acc * 10 + d <= usize::MAX) by (nonlinear_arith)
                requires
                    acc <= (usize::MAX - d) / 10,
                    d <= 9,
            ;
            assert(s@.subrange(start as int, i as int + 1).drop_last() =~= s@.subrange(
                start as int,
                i as int,
            ));
        }
        acc = acc * 10 + d;
        i += 1;
    }
    proof {
        assert(body =~= s@.subrange(start as int, n as int));
        assert(is_digit_seq(body));
    }
    Some(acc)
}

pub open spec fn digit_char(d: int) -> char {
    if d == 0 {
        '0'
    } else if d == 1 {
        '1'
    } else if d == 2 {
        '2'
    } else if d == 3 {
        '3'
    } else if d == 4 {
        '4'
    } else if d == 5 {
        '5'
    } else if d == 6 {
        '6'
    } else if d == 7 {
        '7'
    } else if d == 8 {
        '8'
    } else {
        '9'
    }
}

/// The digits of `n`, most significant first; empty for zero.
pub open spec fn dec_digits(n: int) -> Seq<char>
    decreases n,
{
    if n <= 0 {
        Seq::empty()
    } else {
        dec_digits(n / 10).push(digit_char(n % 10))
    }
}

/// The decimal rendering of a non-negative number.
pub open spec fn dec_str(n: int) -> Seq<char> {
    if n == 0 {
        seq!['0']
    } else {
        dec_digits(n)
    }
}

spec fn rev_digit_chars(v: Seq<u8>) -> Seq<char> {
    Seq::new(v.len(), |i: int| digit_char(v[v.len() - 1 - i] as int))
}

pub(crate) fn append_digit(s: &mut String, d: u8)
    requires
        d <= 9,
    ensures
        final(s)@ == old(s)@.push(digit_char(d as int)),
{
    let t: &str = if d == 0 {
        "0"
    } else if d == 1 {
        "1"
    } else if d == 2 {
        "2"
    } else if d == 3 {
        "3"
    } else if d == 4 {
        "4"
    } else if d == 5 {
        "5"
    } else if d == 6 {
        "6"
    } else if d == 7 {
        "7"
    } else if d == 8 {
        "8"
    } else {
        "9"
    };
    proof {
        reveal_strlit("0");
        reveal_strlit("1");
        reveal_strlit("2");
        reveal_strlit("3");
        reveal_strlit("4");
        reveal_strlit("5");
        reveal_strlit("6");
        reveal_strlit("7");
        reveal_strlit("8");
        reveal_strlit("9");
        assert(t@ =~= seq![digit_char(d as int)]);
    }
    s.append(t);
    proof {
        assert(s@ =~= old(s)@.push(digit_char(d as int)));
    }
}

/// Decimal rendering; the workhorse behind the public formatters.
pub fn u128_to_string(n: u128) -> (r: String)
    ensures
        r@ == dec_str(n as int),
{
    let mut v: Vec<u8> = Vec::new();
    let mut m = n;
    proof {
        assert(dec_digits(n as int) =~= dec_digits(m as int) + rev_digit_chars(v@));
    }
    while m > 0
        invariant
            dec_digits(n as int) == dec_digits(m as int) + rev_digit_chars(v@),
            forall|i: int| 0 <= i < v@.len() ==> v@[i] <= 9,
        decreases m,
    {
        let d = (m % 10) as u8;
        proof {
            let ghost v2 = v@.push(d);
            assert(rev_digit_chars(v2) =~= seq![digit_char(d as int)] + rev_digit_chars(v@));
            assert(dec_digits(m as int) == dec_digits(m as int / 10).push(
                digit_char(m as int % 10),
            ));
            assert(dec_digits(m as int / 10) + rev_digit_chars(v2) =~= dec_digits(m as int)
                + rev_digit_chars(v@));
        }
        v.push(d);
        m = m / 10;
    }
    let mut out = String::new();
    if v.len() == 0 {
        proof {
            reveal_strlit("0");
            assert("0"@ =~= seq!['0']);
        }
        out.append("0");
        return out;
    }
    let mut j = v.len();
    proof {
        assert(out@ =~= rev_digit_chars(v@).take(0));
    }
    while j > 0
        invariant
            j <= v@.len(),
            forall|i: int| 0 <= i < v@.len() ==> v@[i] <= 9,
            out@ == rev_digit_chars(v@).take(v@.len() - j),
        decreases j,
    {
        j -= 1;
        append_digit(&mut out, v[j]);
        proof {
            assert(out@ =~= rev_digit_chars(v@).take(v@.len() - j));
        }
    }
    proof {
        assert(rev_digit_chars(v@).take(v@.len() as int) =~= rev_digit_chars(v@));
        assert(n as int > 0);
    }
    out
}

pub fn u64_to_string(n: u64) -> (r: String)
    ensures
        r@ == dec_str(n as int),
{
    u128_to_string(n as u128)
}

pub fn usize_to_string(n: usize) -> (r: String)
    ensures
        r@ == dec_str(n as int),
{
    u128_to_string(n as u128)
}

} // verus!

verus! {

// ---------------------------------------------------------------------------
// Replacing and inserting
// ---------------------------------------------------------------------------

/// What `str::replace` yields, including the interleaving that an empty
/// pattern produces.
pub open spec fn replace_spec(s: Seq<char>, pat: Seq<char>, rep: Seq<char>) -> Seq<char>
    decreases s.len(),
{
    if s.len() == 0 {
        if pat.len() == 0 {
            rep
        } else {
            s
        }
    } else if pat.len() > 0 && s.len() >= pat.len() && s.take(pat.len() as int) == pat {
        rep + replace_spec(s.skip(pat.len() as int), pat, rep)
    } else if pat.len() == 0 {
        rep + seq![s[0]] + replace_spec(s.drop_first(), pat, rep)
    } else {
        seq![s[0]] + replace_spec(s.drop_first(), pat, rep)
    }
}

pub fn str_replace(s: &str, pat: &str, rep: &str) -> (r: String)
    ensures
        r@ == replace_spec(s@, pat@, rep@),
{
    let n = s.unicode_len();
    let m = pat.unicode_len();
    let mut out = String::new();
    let mut i: usize = 0;
    proof {
        assert(s@.skip(0) =~= s@);
    }
    while i < n
        invariant
            i <= n,
            n == s@.len(),
            m == pat@.len(),
            out@ + replace_spec(s@.skip(i as int), pat@, rep@) == replace_spec(s@, pat@, rep@),
        decreases n - i,
    {
        let ghost rest = s@.skip(i as int);
        if m > 0 && eq_at(s, pat, i) {
            proof {
                lemma_match_at_skip(s@, pat@, i as int, 0);
                assert(rest.subrange(0, m as int) =~= rest.take(m as int));
                assert(rest.skip(m as int) =~= s@.skip(i as int + m as int));
            }
            out.append(rep);
            i += m;
        } else {
            proof {
                if m > 0 {
                    lemma_match_at_skip(s@, pat@, i as int, 0);
                    if rest.len() >= m && rest.take(m as int) == pat@ {
                        assert(rest.subrange(0, m as int) =~= rest.take(m as int));
                        assert(match_at(rest, pat@, 0));
                    }
                }
                assert(rest.drop_first() =~= s@.skip(i as int + 1));
                assert(s@.subrange(i as int, i as int + 1) =~= seq![rest[0]]);
            }
            if m == 0 {
                out.append(rep);
            }
            out.append(s.substring_char(i, i + 1));
            i += 1;
        }
    }
    proof {
        assert(s@.skip(n as int) =~= Seq::<char>::empty());
    }
    if m == 0 {
        out.append(rep);
    }
    out
}

/// What `String::insert_str` makes of `s`, with `i` counted in characters.
pub open spec fn insert_spec(s: Seq<char>, i: int, t: Seq<char>) -> Seq<char> {
    s.take(i) + t + s.skip(i)
}

pub fn str_insert(s: &str, i: usize, t: &str) -> (r: String)
    requires
        i <= s@.len(),
    ensures
        r@ == insert_spec(s@, i as int, t@),
{
    let n = s.unicode_len();
    let mut out = s.substring_char(0, i).to_owned();
    out.append(t);
    out.append(s.substring_char(i, n));
    proof {
        assert(s@.subrange(0, i as int) =~= s@.take(i as int));
        assert(s@.subrange(i as int, n as int) =~= s@.skip(i as int));
    }
    out
}

// ---------------------------------------------------------------------------
// Paths
// ---------------------------------------------------------------------------

/// How `PathBuf::push` joins a directory and a relative name.
pub open spec fn path_join_spec(a: Seq<char>, b: Seq<char>) -> Seq<char> {
    if a.len() == 0 {
        b
    } else if a[a.len() - 1] == '/' {
        a + b
    } else {
        a + seq!['/'] + b
    }
}

pub fn path_join(a: &str, b: &str) -> (r: String)
    ensures
        r@ == path_join_spec(a@, b@),
{
    let n = a.unicode_len();
    if n == 0 {
        return b.to_owned();
    }
    let mut out = a.to_owned();
    if a.get_char(n - 1) != '/' {
        proof {
            reveal_strlit("/");
            assert("/"@ =~= seq!['/']);
        }
        out.append("/");
    }
    out.append(b);
    out
}

/// Does the path start at the filesystem root?
pub open spec fn is_absolute_spec(s: Seq<char>) -> bool {
    s.len() > 0 && s[0] == '/'
}

pub fn is_absolute(s: &str) -> (r: bool)
    ensures
        r == is_absolute_spec(s@),
{
    let n = s.unicode_len();
    n > 0 && s.get_char(0) == '/'
}

/// The part of a path after its last slash.
pub open spec fn base_name_spec(s: Seq<char>) -> Seq<char>
    decreases s.len(),
{
    if s.len() == 0 {
        s
    } else if s.contains('/') {
        base_name_spec(s.drop_first())
    } else {
        s
    }
}

proof fn lemma_base_name_after(s: Seq<char>, i: int)
    requires
        0 <= i < s.len(),
        s[i] == '/',
        forall|j: int| i < j < s.len() ==> s[j] != '/',
    ensures
        base_name_spec(s) == s.skip(i + 1),
    decreases i,
{
    assert(s.contains('/'));
    if i == 0 {
        assert(forall|j: int| 0 <= j < s.drop_first().len() ==> s.drop_first()[j] != '/');
        assert(!s.drop_first().contains('/')) by {
            if s.drop_first().contains('/') {
                let j = choose|j: int|
                    0 <= j < s.drop_first().len() && s.drop_first()[j] == '/';
            }
        }
        assert(base_name_spec(s.drop_first()) == s.drop_first());
        assert(s.drop_first() =~= s.skip(1));
    } else {
        lemma_base_name_after(s.drop_first(), i - 1);
        assert(s.drop_first().skip(i) =~= s.skip(i + 1));
    }
}

pub fn base_name(s: &str) -> (r: String)
    ensures
        r@ == base_name_spec(s@),
{
    let n = s.unicode_len();
    match rfind_char(s, '/') {
        Some(i) => {
            proof {
                lemma_base_name_after(s@, i as int);
            }
            s.substring_char(i + 1, n).to_owned()
        },
        None => {
            proof {
                if s@.len() > 0 {
                    assert(!s@.contains('/')) by {
                        if s@.contains('/') {
                            let j = choose|j: int| 0 <= j < s@.len() && s@[j] == '/';
                        }
                    }
                }
            }
            s.to_owned()
        },
    }
}

// ---------------------------------------------------------------------------
// Padding
// ---------------------------------------------------------------------------

pub open spec fn spaces(k: nat) -> Seq<char> {
    Seq::new(k, |i: int| ' ')
}

/// `s` padded with spaces up to `width` characters.
pub open spec fn pad_spec(s: Seq<char>, width: int) -> Seq<char> {
    if s.len() < width {
        s + spaces((width - s.len()) as nat)
    } else {
        s
    }
}

pub fn str_pad(s: &str, width: usize) -> (r: String)
    ensures
        r@ == pad_spec(s@, width as int),
{
    let n = s.unicode_len();
    let mut out = s.to_owned();
    let mut k = n;
    proof {
        assert(out@ =~= s@ + spaces(0));
    }
    while k < width
        invariant
            n <= k,
            n == s@.len(),
            k <= width || k == n,
            out@ == s@ + spaces((k - n) as nat),
        decreases width - k,
    {
        proof {
            reveal_strlit(" ");
            assert(" "@ =~= seq![' ']);
            assert(s@ + spaces((k - n) as nat) + " "@ =~= s@ + spaces((k + 1 - n) as nat));
        }
        out.append(" ");
        k += 1;
    }
    proof {
        if s@.len() >= width {
            assert(s@ + spaces(0) =~= s@);
        }
    }
    out
}

} // verus!

verus! {

pub proof fn lemma_split_pat_nonempty(s: Seq<char>, pat: Seq<char>)
    requires
        pat.len() > 0,
    ensures
        split_pat(s, pat).len() >= 1,
{
    match find_pat(s, pat) {
        Some(i) => {},
        None => {},
    }
}

} // verus!

verus! {

/// The non-blank pieces of `s` between occurrences of `pat`.
pub fn split_nonblank(s: &str, pat: &str) -> (r: Vec<String>)
    requires
        pat@.len() > 0,
    ensures
        views_of(r@) == split_pat(s@, pat@).filter(|t: Seq<char>| t.len() > 0),
{
    let parts = split_str(s, pat);
    let ghost toks = views_of(parts@);
    let ghost pred = |t: Seq<char>| t.len() > 0;
    let mut out: Vec<String> = Vec::new();
    let n = parts.len();
    let mut i: usize = 0;
    proof {
        assert(toks.take(0) =~= Seq::<Seq<char>>::empty());
        assert(views_of(out@) =~= toks.take(0).filter(pred));
    }
    while i < n
        invariant
            i <= n,
            n == parts@.len(),
            toks == views_of(parts@),
            toks.len() == n,
            views_of(out@) == toks.take(i as int).filter(pred),
            pred == (|t: Seq<char>| t.len() > 0),
        decreases n - i,
    {
        if parts[i].as_str().unicode_len() > 0 {
            let piece = parts[i].clone();
            proof {
                lemma_views_push(out@, piece);
            }
            out.push(piece);
        }
        proof {
            assert(toks.take(i as int + 1).drop_last() =~= toks.take(i as int));
            assert(toks.take(i as int + 1).last() == toks[i as int]);
            reveal(Seq::filter);
            assert(views_of(out@) =~= toks.take(i as int + 1).filter(pred));
        }
        i += 1;
    }
    proof {
        assert(toks.take(n as int) =~= toks);
    }
    out
}

/// The pieces joined with `sep` between them.
pub open spec fn join_spec(parts: Seq<Seq<char>>, sep: Seq<char>) -> Seq<char>
    decreases parts.len(),
{
    if parts.len() == 0 {
        Seq::empty()
    } else if parts.len() == 1 {
        parts[0]
    } else {
        join_spec(parts.drop_last(), sep) + sep + parts.last()
    }
}

/// Join the pieces from position `from` on with `sep` between them.
pub fn join_from(parts: &Vec<String>, from: usize, sep: &str) -> (r: String)
    requires
        from <= parts@.len(),
    ensures
        r@ == join_spec(views_of(parts@).skip(from as int), sep@),
{
    let mut out = String::new();
    let n = parts.len();
    let mut i = from;
    proof {
        assert(views_of(parts@).subrange(from as int, from as int) =~= Seq::<Seq<char>>::empty());
    }
    while i < n
        invariant
            from <= i <= n,
            n == parts@.len(),
            out@ == join_spec(views_of(parts@).subrange(from as int, i as int), sep@),
        decreases n - i,
    {
        proof {
            assert(views_of(parts@).subrange(from as int, i as int + 1).drop_last()
                =~= views_of(parts@).subrange(from as int, i as int));
            assert(views_of(parts@).subrange(from as int, i as int + 1).last() == parts@[
                i as int
            ]@);
        }
        if i > from {
            out.append(sep);
        }
        out.append(parts[i].as_str());
        i += 1;
    }
    proof {
        assert(views_of(parts@).subrange(from as int, n as int) =~= views_of(parts@).skip(
            from as int,
        ));
    }
    out
}

} // verus!

//! Character-level helpers on strings: reading and building them, Unicode
//! whitespace trimming, unsigned-integer parsing and literal replacement.

use vstd::prelude::*;

verus! {

broadcast use vstd::string::group_string_axioms;

/// The characters of `s`, in order.
pub fn chars_of(s: &str) -> (v: Vec<char>)
    ensures
        v@ == s@,
{
    let mut v: Vec<char> = Vec::new();
    for c in it: s.chars()
        invariant
            v@ == it.seq().take(it.index() as int),
    {
        v.push(c);
    }
    v
}

/// Builds a `String` from its characters (std's `FromIterator<&char>` for
/// `String`, which appends each character in turn).
#[verifier::external_body]
pub(crate) fn string_from_chars(v: &Vec<char>) -> (s: String)
    ensures
        s@ == v@,
{
    v.iter().collect()
}

/// Whether `a` and `b` hold the same characters.
pub fn str_eq(a: &str, b: &str) -> (r: bool)
    ensures
        r == (a@ == b@),
{
    let va = chars_of(a);
    let vb = chars_of(b);
    chars_eq(&va, &vb)
}

/// Whether two character vectors are equal.
pub fn chars_eq(a: &Vec<char>, b: &Vec<char>) -> (r: bool)
    ensures
        r == (a@ == b@),
{
    if a.len() != b.len() {
        return false;
    }
    let mut i: usize = 0;
    while i < a.len()
        invariant
            a.len() == b.len(),
            i <= a.len(),
            forall|k: int| 0 <= k < i ==> a@[k] == b@[k],
        decreases a.len() - i,
    {
        if a[i] != b[i] {
            return false;
        }
        i = i + 1;
    }
    assert(a@ =~= b@);
    true
}

/// Appends the characters of `s` to `v`.
pub fn push_str_chars(v: &mut Vec<char>, s: &str)
    ensures
        final(v)@ == old(v)@ + s@,
{
    let cs = chars_of(s);
    push_chars(v, &cs);
}

/// Appends the characters of `w` to `v`.
pub fn push_chars(v: &mut Vec<char>, w: &Vec<char>)
    ensures
        final(v)@ == old(v)@ + w@,
{
    let ghost start = v@;
    let mut j: usize = 0;
    while j < w.len()
        invariant
            j <= w@.len(),
            v@ == start + w@.take(j as int),
        decreases w.len() - j,
    {
        v.push(w[j]);
        j = j + 1;
        assert(v@ =~= start + w@.take(j as int));
    }
    assert(w@.take(w.len() as int) =~= w@);
}

// ---------------------------------------------------------------------------
// Unicode whitespace and trimming
// ---------------------------------------------------------------------------

/// The Unicode `White_Space` property, as `char::is_whitespace` tests it.
pub open spec fn is_whitespace(c: char) -> bool {
    let u = c as u32;
    ||| 0x09 <= u <= 0x0D
    ||| u == 0x20
    ||| u == 0x85
    ||| u == 0xA0
    ||| u == 0x1680
    ||| 0x2000 <= u <= 0x200A
    ||| u == 0x2028
    ||| u == 0x2029
    ||| u == 0x202F
    ||| u == 0x205F
    ||| u == 0x3000
}

/// Exec test of `is_whitespace`.
pub fn char_is_whitespace(c: char) -> (r: bool)
    ensures
        r == is_whitespace(c),
{
    let u = c as u32;
    (0x09 <= u && u <= 0x0D) || u == 0x20 || u == 0x85 || u == 0xA0 || u == 0x1680 || (0x2000
        <= u && u <= 0x200A) || u == 0x2028 || u == 0x2029 || u == 0x202F || u == 0x205F || u
        == 0x3000
}

/// `s` without its leading whitespace.
pub open spec fn trim_start_spec(s: Seq<char>) -> Seq<char>
    decreases s.len(),
{
    if s.len() > 0 && is_whitespace(s[0]) {
        trim_start_spec(s.drop_first())
    } else {
        s
    }
}

/// `s` without its trailing whitespace.
pub open spec fn trim_end_spec(s: Seq<char>) -> Seq<char>
    decreases s.len(),
{
    if s.len() > 0 && is_whitespace(s.last()) {
        trim_end_spec(s.drop_last())
    } else {
        s
    }
}

/// `s` without leading and trailing whitespace (`str::trim`).
pub open spec fn trim_spec(s: Seq<char>) -> Seq<char> {
    trim_end_spec(trim_start_spec(s))
}

/// Trims leading and trailing whitespace, as `str::trim` does.
pub fn trim_chars(s: &Vec<char>) -> (r: Vec<char>)
    ensures
        r@ == trim_spec(s@),
{
    let n = s.len();
    let mut i: usize = 0;
    assert(s@.skip(0) =~= s@);
    while i < n && char_is_whitespace(s[i])
        invariant
            n == s.len(),
            i <= n,
            trim_start_spec(s@) == trim_start_spec(s@.skip(i as int)),
        decreases n - i,
    {
        assert(s@.skip(i as int).drop_first() =~= s@.skip(i + 1));
        i = i + 1;
    }
    assert(trim_start_spec(s@) == s@.skip(i as int)) by {
        if i < n {
            assert(s@.skip(i as int)[0] == s@[i as int]);
        }
    }
    let mut j: usize = n;
    while j > i && char_is_whitespace(s[j - 1])
        invariant
            n == s.len(),
            i <= j <= n,
            trim_spec(s@) == trim_end_spec(s@.subrange(i as int, j as int)),
        decreases j,
    {
        assert(s@.subrange(i as int, j as int).drop_last() =~= s@.subrange(i as int, j - 1));
        j = j - 1;
    }
    assert(trim_spec(s@) == s@.subrange(i as int, j as int)) by {
        assert(s@.skip(i as int) =~= s@.subrange(i as int, n as int));
        if j > i {
            assert(s@.subrange(i as int, j as int).last() == s@[j - 1]);
        }
    }
    let mut r: Vec<char> = Vec::new();
    let mut k: usize = i;
    while k < j
        invariant
            n == s.len(),
            i <= k <= j <= n,
            r@ == s@.subrange(i as int, k as int),
        decreases j - k,
    {
        r.push(s[k]);
        k = k + 1;
        assert(r@ =~= s@.subrange(i as int, k as int));
    }
    r
}

// ---------------------------------------------------------------------------
// Unsigned integer parsing (`from_str_radix` / `str::parse` for unsigned types)
// ---------------------------------------------------------------------------

/// Why a string is not an unsigned integer, as `core::num::IntErrorKind` names it.
#[derive(Clone, Copy, Debug, PartialEq, Eq, Structural)]
pub enum IntErrorKind {
    Empty,
    InvalidDigit,
    PosOverflow,
}

/// The value of `c` as a digit of `radix` (at most 36), as `char::to_digit` gives it.
pub open spec fn digit_value(c: char, radix: u32) -> Option<int> {
    let u = c as int;
    let d: int = if 48 <= u <= 57 {
        u - 48
    } else if 97 <= u <= 122 {
        u - 97 + 10
    } else if 65 <= u <= 90 {
        u - 65 + 10
    } else {
        36
    };
    if d < radix {
        Some(d)
    } else {
        None
    }
}

/// Reads `d` digit by digit onto `acc`, left to right: an invalid digit, or a
/// value above `max`, stops the reading with its error.
pub open spec fn fold_digits(d: Seq<char>, radix: u32, max: int, acc: int) -> Result<int, IntErrorKind>
    decreases d.len(),
{
    if d.len() == 0 {
        Ok(acc)
    } else {
        match digit_value(d[0], radix) {
            None => Err(IntErrorKind::InvalidDigit),
            Some(x) => if acc * radix + x > max {
                Err(IntErrorKind::PosOverflow)
            } else {
                fold_digits(d.drop_first(), radix, max, acc * radix + x)
            },
        }
    }
}

/// `s` read as an unsigned integer of `radix` no greater than `max`: an
/// optional leading `+`, then at least one digit.
pub open spec fn parse_unsigned_spec(s: Seq<char>, radix: u32, max: int) -> Result<int, IntErrorKind> {
    if s.len() == 0 {
        Err(IntErrorKind::Empty)
    } else if s.len() == 1 && (s[0] == '+' || s[0] == '-') {
        Err(IntErrorKind::InvalidDigit)
    } else if s[0] == '+' {
        fold_digits(s.drop_first(), radix, max, 0)
    } else {
        fold_digits(s, radix, max, 0)
    }
}

/// Every character of `d` is a digit of `radix`.
pub open spec fn all_digits(d: Seq<char>, radix: u32) -> bool {
    forall|i: int| 0 <= i < d.len() ==> (#[trigger] digit_value(d[i], radix)) is Some
}

/// The number that the digits `d` of `radix` write, read onto `acc`
/// (`acc` followed by the digits).
pub open spec fn digits_value(d: Seq<char>, radix: u32, acc: int) -> int
    decreases d.len(),
{
    if d.len() == 0 {
        acc
    } else {
        let x = match digit_value(d[0], radix) {
            Some(x) => x,
            None => 0,
        };
        digits_value(d.drop_first(), radix, acc * radix + x)
    }
}

proof fn lemma_digits_value_grows(d: Seq<char>, radix: u32, acc: int)
    requires
        acc >= 0,
        radix >= 1,
    ensures
        digits_value(d, radix, acc) >= acc,
    decreases d.len(),
{
    if d.len() > 0 {
        let x = match digit_value(d[0], radix) {
            Some(x) => x,
            None => 0,
        };
        assert(x >= 0);
        assert(acc * radix >= acc) by (nonlinear_arith)
            requires
                acc >= 0,
                radix >= 1,
        ;
        lemma_digits_value_grows(d.drop_first(), radix, acc * radix + x);
    }
}

/// The digit-by-digit reading succeeds exactly when every character is a
/// digit and the number they write is at most `max`; it gives that number.
pub proof fn lemma_fold_digits_closed_form(d: Seq<char>, radix: u32, max: int, acc: int)
    requires
        0 <= acc <= max,
        radix >= 1,
    ensures
        fold_digits(d, radix, max, acc) is Ok <==> all_digits(d, radix) && digits_value(d, radix, acc) <= max,
        fold_digits(d, radix, max, acc) is Ok ==> fold_digits(d, radix, max, acc) == Ok::<int, IntErrorKind>(
            digits_value(d, radix, acc),
        ),
    decreases d.len(),
{
    if d.len() > 0 {
        let d1 = d.drop_first();
        assert(all_digits(d, radix) <==> digit_value(d[0], radix) is Some && all_digits(d1, radix)) by {
            if digit_value(d[0], radix) is Some && all_digits(d1, radix) {
                assert forall|i: int| 0 <= i < d.len() implies (#[trigger] digit_value(d[i], radix)) is Some by {
                    if i > 0 {
                        assert(d[i] == d1[i - 1]);
                    }
                }
            }
            if all_digits(d, radix) {
                assert forall|i: int| 0 <= i < d1.len() implies (#[trigger] digit_value(d1[i], radix)) is Some by {
                    assert(d1[i] == d[i + 1]);
                }
            }
        }
        match digit_value(d[0], radix) {
            None => {},
            Some(x) => {
                let a = acc * radix + x;
                assert(a >= 0) by (nonlinear_arith)
                    requires
                        a == acc * radix + x,
                        acc >= 0,
                        radix >= 1,
                        x >= 0,
                ;
                lemma_digits_value_grows(d1, radix, a);
                if a <= max {
                    lemma_fold_digits_closed_form(d1, radix, max, a);
                }
            },
        }
    }
}

/// Exec `digit_value`.
pub fn char_digit(c: char, radix: u32) -> (r: Option<u32>)
    requires
        2 <= radix <= 36,
    ensures
        match r {
            Some(x) => digit_value(c, radix) == Some(x as int),
            None => digit_value(c, radix) is None,
        },
{
    let u = c as u32;
    let d: u32 = if 48 <= u && u <= 57 {
        u - 48
    } else if 97 <= u && u <= 122 {
        u - 97 + 10
    } else if 65 <= u && u <= 90 {
        u - 65 + 10
    } else {
        36
    };
    if d < radix {
        Some(d)
    } else {
        None
    }
}

proof fn lemma_step_bound(acc: int, radix: int, x: int, max: int)
    requires
        radix > 0,
        0 <= x <= max,
        acc >= 0,
    ensures
        (acc * radix + x > max) == (acc > (max - x) / radix),
{
    let q = (max - x) / radix;
    assert(q * radix <= max - x < q * radix + radix) by (nonlinear_arith)
        requires
            q == (max - x) / radix,
            radix > 0,
            max - x >= 0,
    ;
    if acc > q {
        assert(acc * radix >= q * radix + radix) by (nonlinear_arith)
            requires
                acc >= q + 1,
                radix > 0,
        ;
    } else {
        assert(acc * radix <= q * radix) by (nonlinear_arith)
            requires
                acc <= q,
                radix > 0,
        ;
    }
}

/// Reads `s` as an unsigned integer of `radix` no greater than `max`, with
/// the rules and the error order of `from_str_radix` for unsigned types.
pub fn parse_unsigned(s: &Vec<char>, radix: u32, max: u64) -> (r: Result<u64, IntErrorKind>)
    requires
        2 <= radix <= 36,
    ensures
        match r {
            Ok(v) => parse_unsigned_spec(s@, radix, max as int) == Ok::<int, IntErrorKind>(v as int),
            Err(e) => parse_unsigned_spec(s@, radix, max as int) == Err::<int, IntErrorKind>(e),
        },
        r matches Ok(v) ==> v <= max,
{
    let n = s.len();
    if n == 0 {
        return Err(IntErrorKind::Empty);
    }
    if n == 1 && (s[0] == '+' || s[0] == '-') {
        return Err(IntErrorKind::InvalidDigit);
    }
    let mut i: usize = if s[0] == '+' { 1 } else { 0 };
    let ghost d = s@.skip(i as int);
    assert(parse_unsigned_spec(s@, radix, max as int) == fold_digits(d, radix, max as int, 0)) by {
        if s@[0] == '+' {
            assert(d =~= s@.drop_first());
        } else {
            assert(d =~= s@);
        }
    }
    let mut acc: u64 = 0;
    while i < n
        invariant
            n == s.len(),
            i <= n,
            2 <= radix <= 36,
            acc <= max,
            parse_unsigned_spec(s@, radix, max as int) == fold_digits(
                s@.skip(i as int),
                radix,
                max as int,
                acc as int,
            ),
        decreases n - i,
    {
        let ghost rest = s@.skip(i as int);
        assert(rest[0] == s@[i as int]);
        assert(rest.drop_first() =~= s@.skip(i + 1));
        match char_digit(s[i], radix) {
            None => {
                return Err(IntErrorKind::InvalidDigit);
            },
            Some(x) => {
                if x as u64 > max {
                    assert(acc * radix + x > max) by (nonlinear_arith)
                        requires
                            acc >= 0,
                            radix >= 2,
                            x > max,
                    ;
                    return Err(IntErrorKind::PosOverflow);
                }
                proof {
                    lemma_step_bound(acc as int, radix as int, x as int, max as int);
                }
                if acc > (max - x as u64) / (radix as u64) {
                    return Err(IntErrorKind::PosOverflow);
                }
                acc = acc * (radix as u64) + x as u64;
            },
        }
        i = i + 1;
    }
    assert(s@.skip(n as int).len() == 0);
    Ok(acc)
}

// ---------------------------------------------------------------------------
// Literal replacement (`str::replace`)
// ---------------------------------------------------------------------------

/// `r` before every character of `s` and after the last: what `str::replace`
/// gives for an empty pattern, which occurs at every character boundary.
pub open spec fn insert_between(s: Seq<char>, r: Seq<char>) -> Seq<char>
    decreases s.len(),
{
    if s.len() == 0 {
        r
    } else {
        r + seq![s[0]] + insert_between(s.drop_first(), r)
    }
}

/// `s` with every occurrence of `p` replaced by `r`, occurrences found left to
/// right without overlap, as `str::replace` does.
pub open spec fn replace_spec(s: Seq<char>, p: Seq<char>, r: Seq<char>) -> Seq<char>
    decreases s.len(),
{
    if p.len() == 0 {
        insert_between(s, r)
    } else if s.len() < p.len() {
        s
    } else if s.take(p.len() as int) == p {
        r + replace_spec(s.skip(p.len() as int), p, r)
    } else {
        seq![s[0]] + replace_spec(s.drop_first(), p, r)
    }
}

/// Whether `p` occurs in `s` at index `i`.
fn occurs_at(s: &Vec<char>, i: usize, p: &Vec<char>) -> (b: bool)
    requires
        i + p.len() <= s.len(),
    ensures
        b == (s@.subrange(i as int, i + p.len()) == p@),
{
    let mut k: usize = 0;
    while k < p.len()
        invariant
            i + p.len() <= s.len(),
            k <= p.len(),
            forall|j: int| 0 <= j < k ==> s@[i + j] == p@[j],
        decreases p.len() - k,
    {
        if s[i + k] != p[k] {
            assert(s@.subrange(i as int, i + p.len())[k as int] != p@[k as int]);
            return false;
        }
        k = k + 1;
    }
    assert(s@.subrange(i as int, i + p.len()) =~= p@);
    true
}

/// `r` before every character of `s` and after the last.
fn insert_between_exec(s: &Vec<char>, r: &Vec<char>) -> (out: Vec<char>)
    ensures
        out@ == insert_between(s@, r@),
{
    let mut out: Vec<char> = Vec::new();
    let mut i: usize = 0;
    assert(s@.skip(0) =~= s@);
    while i < s.len()
        invariant
            i <= s@.len(),
            out@ + insert_between(s@.skip(i as int), r@) == insert_between(s@, r@),
        decreases s.len() - i,
    {
        let ghost rest = s@.skip(i as int);
        assert(rest.drop_first() =~= s@.skip(i + 1));
        let ghost before = out@;
        push_chars(&mut out, r);
        out.push(s[i]);
        assert(out@ + insert_between(s@.skip(i + 1), r@) =~= before + insert_between(rest, r@));
        i = i + 1;
    }
    let ghost before = out@;
    push_chars(&mut out, r);
    assert(s@.skip(i as int).len() == 0);
    assert(out@ =~= before + insert_between(s@.skip(i as int), r@));
    out
}

/// Replaces every occurrence of `p` in `s` by `r`, as `str::replace` does.
pub fn replace_all(s: &Vec<char>, p: &Vec<char>, r: &Vec<char>) -> (out: Vec<char>)
    ensures
        out@ == replace_spec(s@, p@, r@),
{
    if p.len() == 0 {
        return insert_between_exec(s, r);
    }
    let n = s.len();
    let m = p.len();
    let mut out: Vec<char> = Vec::new();
    let mut i: usize = 0;
    assert(s@.skip(0) =~= s@);
    while i < n
        invariant
            n == s.len(),
            m == p.len(),
            m > 0,
            i <= n,
            replace_spec(s@, p@, r@) == out@ + replace_spec(s@.skip(i as int), p@, r@),
        decreases n - i,
    {
        let ghost rest = s@.skip(i as int);
        if m <= n - i && occurs_at(s, i, p) {
            assert(rest.take(m as int) =~= s@.subrange(i as int, i + m));
            assert(rest.skip(m as int) =~= s@.skip(i + m));
            let mut k: usize = 0;
            let ghost before = out@;
            while k < r.len()
                invariant
                    k <= r.len(),
                    out@ == before + r@.take(k as int),
                decreases r.len() - k,
            {
                out.push(r[k]);
                k = k + 1;
                assert(out@ =~= before + r@.take(k as int));
            }
            assert(r@.take(r.len() as int) =~= r@);
            assert(out@ + replace_spec(s@.skip(i + m), p@, r@) =~= before + (r@ + replace_spec(
                rest.skip(m as int),
                p@,
                r@,
            )));
            i = i + m;
        } else {
            proof {
                if m <= n - i {
                    assert(rest.take(m as int) =~= s@.subrange(i as int, i + m));
                }
                assert(rest.drop_first() =~= s@.skip(i + 1));
                assert(rest[0] == s@[i as int]);
                if rest.len() < m {
                    assert(replace_spec(rest, p@, r@) == rest);
                    assert(rest =~= seq![s@[i as int]] + s@.skip(i + 1));
                    assert(replace_spec(s@.skip(i + 1), p@, r@) == s@.skip(i + 1));
                }
            }
            let ghost before = out@;
            out.push(s[i]);
            assert(out@ + replace_spec(s@.skip(i + 1), p@, r@) =~= before + (seq![s@[i as int]]
                + replace_spec(s@.skip(i + 1), p@, r@)));
            i = i + 1;
        }
    }
    assert(s@.skip(n as int) =~= Seq::<char>::empty());
    assert(out@ + Seq::<char>::empty() =~= out@);
    out
}

// ---------------------------------------------------------------------------
// Facts about replacing placeholder tokens
// ---------------------------------------------------------------------------

/// `p` occurs nowhere in `s`.
pub open spec fn free_of(s: Seq<char>, p: Seq<char>) -> bool {
    forall|i: int| 0 <= i <= s.len() - p.len() ==> #[trigger] s.subrange(i, i + p.len()) != p
}

/// A placeholder token: `{`, then characters other than `{`, `}`, `_` and
/// line breaks, then `}`.
pub open spec fn is_token(p: Seq<char>) -> bool {
    &&& p.len() >= 2
    &&& p[0] == '{'
    &&& p[p.len() - 1] == '}'
    &&& forall|j: int|
        0 < j < p.len() - 1 ==> #[trigger] p[j] != '{' && p[j] != '}' && p[j] != '_' && p[j] != '\n'
}

/// A token's replacement: a line break, or a brace-enclosed text with an `_`
/// inside and no other brace.
pub open spec fn is_replacement(r: Seq<char>) -> bool {
    ||| r =~= seq!['\n']
    ||| {
        &&& r.len() >= 2
        &&& r[0] == '{'
        &&& r[r.len() - 1] == '}'
        &&& forall|j: int| 0 < j < r.len() - 1 ==> #[trigger] r[j] != '{' && r[j] != '}'
        &&& exists|j: int| 0 < j < r.len() - 1 && #[trigger] r[j] == '_'
    }
}

/// Replacing a pattern that does not occur changes nothing.
pub proof fn lemma_replace_absent(s: Seq<char>, p: Seq<char>, r: Seq<char>)
    requires
        p.len() > 0,
        free_of(s, p),
    ensures
        replace_spec(s, p, r) == s,
    decreases s.len(),
{
    if s.len() >= p.len() {
        assert(s.subrange(0, 0 + p.len() as int) != p);
        assert(s.subrange(0, p.len() as int) =~= s.take(p.len() as int));
        assert(s.take(p.len() as int) != p);
        let t = s.drop_first();
        assert forall|i: int| 0 <= i <= t.len() - p.len() implies #[trigger] t.subrange(i, i + p.len()) != p by {
            assert(t.subrange(i, i + p.len()) =~= s.subrange(i + 1, i + 1 + p.len()));
        }
        lemma_replace_absent(t, p, r);
        assert(seq![s[0]] + t =~= s);
    }
}

/// The start of a replacement result that holds no `{` and no line break
/// is the untouched start of the input.
pub(crate) proof fn lemma_untouched_prefix(x: Seq<char>, q: Seq<char>, r: Seq<char>, k: int)
    requires
        q.len() > 0,
        r.len() > 0,
        r[0] == '{' || r[0] == '\n',
        0 <= k <= replace_spec(x, q, r).len(),
        forall|j: int|
            0 <= j < k ==> #[trigger] replace_spec(x, q, r)[j] != '{' && replace_spec(x, q, r)[j]
                != '\n',
    ensures
        k <= x.len(),
        x.take(k) == replace_spec(x, q, r).take(k),
    decreases x.len(),
{
    let y = replace_spec(x, q, r);
    if x.len() < q.len() {
    } else if x.take(q.len() as int) == q {
        if k > 0 {
            assert(y[0] == r[0]);
        }
    } else if k > 0 {
        let x1 = x.drop_first();
        let y1 = replace_spec(x1, q, r);
        assert(y == seq![x[0]] + y1);
        assert forall|j: int| 0 <= j < k - 1 implies #[trigger] y1[j] != '{' && y1[j] != '\n' by {
            assert(y1[j] == y[j + 1]);
        }
        lemma_untouched_prefix(x1, q, r, k - 1);
        assert(x.take(k) =~= seq![x[0]] + x1.take(k - 1));
        assert(y.take(k) =~= seq![x[0]] + y1.take(k - 1));
    }
}

/// No token occurs at the start of a replacement followed by anything.
pub(crate) proof fn lemma_token_not_at_replacement(p: Seq<char>, r: Seq<char>, b: Seq<char>)
    requires
        is_token(p),
        is_replacement(r),
        p.len() <= r.len() + b.len(),
    ensures
        (r + b).subrange(0, p.len() as int) != p,
{
    let w = r + b;
    if w.subrange(0, p.len() as int) == p {
        assert(w[0] == p[0]);
        if r =~= seq!['\n'] {
            assert(w[0] == '\n');
        } else if p.len() <= r.len() {
            let e = p.len() - 1;
            assert(w[e] == p[e]);
            assert(r[e] == '}');
            if e < r.len() - 1 {
                assert(r[e] != '}');
            }
            let j = choose|j: int| 0 < j < r.len() - 1 && #[trigger] r[j] == '_';
            assert(w[j] == p[j]);
            assert(p[j] != '_');
        } else {
            let e = r.len() - 1;
            assert(w[e] == r[e]);
            assert(w[e] == p[e]);
            assert(p[e] != '}');
        }
    }
}

/// Replacing token `q` by `r` leaves no `q` behind, and brings in no token
/// `p` that the input did not hold.
pub proof fn lemma_replace_keeps_free(s: Seq<char>, q: Seq<char>, r: Seq<char>, p: Seq<char>)
    requires
        is_token(p),
        is_token(q),
        is_replacement(r),
        p == q || free_of(s, p),
    ensures
        free_of(replace_spec(s, q, r), p),
    decreases s.len(),
{
    let y = replace_spec(s, q, r);
    if s.len() < q.len() {
        if p != q {
        } else {
            assert forall|i: int| 0 <= i <= y.len() - p.len() implies #[trigger] y.subrange(i, i + p.len()) != p by {}
        }
    } else if s.take(q.len() as int) == q {
        let t = s.skip(q.len() as int);
        if p != q {
            assert forall|i: int| 0 <= i <= t.len() - p.len() implies #[trigger] t.subrange(i, i + p.len()) != p by {
                assert(t.subrange(i, i + p.len()) =~= s.subrange(i + q.len(), i + q.len() + p.len()));
            }
        }
        lemma_replace_keeps_free(t, q, r, p);
        let b = replace_spec(t, q, r);
        assert(y == r + b);
        assert forall|i: int| 0 <= i <= y.len() - p.len() implies #[trigger] y.subrange(i, i + p.len()) != p by {
            if i >= r.len() {
                assert(y.subrange(i, i + p.len()) =~= b.subrange(i - r.len(), i - r.len() + p.len()));
            } else if i > 0 {
                if y.subrange(i, i + p.len()) == p {
                    assert(y[i] == p[0]);
                    assert(y[i] == r[i]);
                    if r =~= seq!['\n'] {
                    } else if i < r.len() - 1 {
                        assert(r[i] != '{');
                    } else {
                        assert(r[i] == '}');
                    }
                }
            } else {
                lemma_token_not_at_replacement(p, r, b);
            }
        }
    } else {
        let t = s.drop_first();
        if p != q {
            assert forall|i: int| 0 <= i <= t.len() - p.len() implies #[trigger] t.subrange(i, i + p.len()) != p by {
                assert(t.subrange(i, i + p.len()) =~= s.subrange(i + 1, i + 1 + p.len()));
            }
        }
        lemma_replace_keeps_free(t, q, r, p);
        let b = replace_spec(t, q, r);
        assert(y == seq![s[0]] + b);
        assert forall|i: int| 0 <= i <= y.len() - p.len() implies #[trigger] y.subrange(i, i + p.len()) != p by {
            if i >= 1 {
                assert(y.subrange(i, i + p.len()) =~= b.subrange(i - 1, i - 1 + p.len()));
            } else if y.subrange(0, p.len() as int) == p {
                let k = p.len() - 1;
                assert forall|j: int| 0 <= j < k implies #[trigger] b[j] != '{' && b[j] != '\n' by {
                    assert(b[j] == y[j + 1]);
                    assert(y[j + 1] == p[j + 1]);
                }
                if r =~= seq!['\n'] {
                } else {
                }
                lemma_untouched_prefix(t, q, r, k);
                assert(s.subrange(0, p.len() as int) =~= seq![s[0]] + t.take(k));
                assert(y.subrange(0, p.len() as int) =~= seq![s[0]] + b.take(k));
                assert(s.subrange(0, p.len() as int) == p);
                if p == q {
                    assert(s.take(q.len() as int) =~= s.subrange(0, p.len() as int));
                }
            }
        }
    }
}

} // verus!

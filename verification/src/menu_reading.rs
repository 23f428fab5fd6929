//! What the launcher's answer and the desktop list mean for the fallback
//! menu: the decimal line index, and the desktops that show the tray's menu.

use vstd::prelude::*;
use crate::menu::{colon_parts, is_native_desktop, menu_choice_spec};
use crate::text::{
    all_digits, digit_value, digits_value, is_whitespace, lemma_fold_digits_closed_form, parse_unsigned_spec,
    trim_end_spec, trim_spec, trim_start_spec,
};

verus! {

/// The decimal digit of `d` (0 to 9).
pub open spec fn decimal_digit(d: int) -> char {
    (48 + d) as char
}

/// The decimal numeral of `n`, without leading zeros.
pub open spec fn decimal_text(n: nat) -> Seq<char>
    decreases n,
{
    if n < 10 {
        seq![decimal_digit(n as int)]
    } else {
        decimal_text(n / 10).push(decimal_digit((n % 10) as int))
    }
}

/// Every character of `w` is whitespace.
pub open spec fn all_whitespace(w: Seq<char>) -> bool {
    forall|i: int| 0 <= i < w.len() ==> is_whitespace(#[trigger] w[i])
}

proof fn lemma_decimal_digit(d: int)
    requires
        0 <= d < 10,
    ensures
        digit_value(decimal_digit(d), 10) == Some(d),
        !is_whitespace(decimal_digit(d)),
        decimal_digit(d) != '+',
        decimal_digit(d) != '-',
{
    assert((decimal_digit(d) as int) == 48 + d);
}

proof fn lemma_digits_value_push(d: Seq<char>, c: char, acc: int)
    ensures
        digits_value(d.push(c), 10, acc) == digits_value(d, 10, acc) * 10 + match digit_value(c, 10) {
            Some(x) => x,
            None => 0,
        },
    decreases d.len(),
{
    let xc = match digit_value(c, 10) {
        Some(x) => x,
        None => 0,
    };
    if d.len() == 0 {
        assert(d.push(c).drop_first() =~= Seq::<char>::empty());
        assert(d.push(c)[0] == c);
        assert(digits_value(Seq::<char>::empty(), 10, acc * 10 + xc) == acc * 10 + xc);
    } else {
        assert(d.push(c)[0] == d[0]);
        let x = match digit_value(d[0], 10) {
            Some(x) => x,
            None => 0,
        };
        assert(d.push(c).drop_first() =~= d.drop_first().push(c));
        lemma_digits_value_push(d.drop_first(), c, acc * 10 + x);
    }
}

proof fn lemma_decimal_text(n: nat)
    ensures
        decimal_text(n).len() > 0,
        all_digits(decimal_text(n), 10),
        digits_value(decimal_text(n), 10, 0) == n,
        forall|i: int| 0 <= i < decimal_text(n).len() ==> !is_whitespace(#[trigger] decimal_text(n)[i])
            && decimal_text(n)[i] != '+' && decimal_text(n)[i] != '-',
    decreases n,
{
    if n < 10 {
        lemma_decimal_digit(n as int);
        let d = decimal_text(n);
        assert(d.drop_first() =~= Seq::<char>::empty());
        assert(digits_value(Seq::<char>::empty(), 10, n as int) == n);
    } else {
        lemma_decimal_text(n / 10);
        lemma_decimal_digit((n % 10) as int);
        let p = decimal_text(n / 10);
        let c = decimal_digit((n % 10) as int);
        lemma_digits_value_push(p, c, 0);
        let d = decimal_text(n);
        assert forall|i: int| 0 <= i < d.len() implies (#[trigger] digit_value(d[i], 10)) is Some && !is_whitespace(d[i])
            && d[i] != '+' && d[i] != '-' by {
            if i < p.len() {
                assert(d[i] == p[i]);
                assert(digit_value(p[i], 10) is Some);
            } else {
                assert(d[i] == c);
            }
        }
    }
}

proof fn lemma_trim_start_whitespace(w: Seq<char>, x: Seq<char>)
    requires
        all_whitespace(w),
    ensures
        trim_start_spec(w + x) == trim_start_spec(x),
    decreases w.len(),
{
    if w.len() > 0 {
        assert((w + x)[0] == w[0]);
        assert((w + x).drop_first() =~= w.drop_first() + x);
        assert forall|i: int| 0 <= i < w.drop_first().len() implies is_whitespace(#[trigger] w.drop_first()[i]) by {
            assert(w.drop_first()[i] == w[i + 1]);
        }
        lemma_trim_start_whitespace(w.drop_first(), x);
    } else {
        assert(w + x =~= x);
    }
}

proof fn lemma_trim_end_whitespace(x: Seq<char>, w: Seq<char>)
    requires
        all_whitespace(w),
        x.len() > 0,
        !is_whitespace(x.last()),
    ensures
        trim_end_spec(x + w) == x,
    decreases w.len(),
{
    if w.len() > 0 {
        assert((x + w).last() == w.last());
        assert((x + w).drop_last() =~= x + w.drop_last());
        assert forall|i: int| 0 <= i < w.drop_last().len() implies is_whitespace(#[trigger] w.drop_last()[i]) by {
            assert(w.drop_last()[i] == w[i]);
        }
        lemma_trim_end_whitespace(x, w.drop_last());
    } else {
        assert(x + w =~= x);
    }
}

/// The launcher's answer is a decimal line index: for every line `n` of a
/// menu of `count` lines, the answer made of `n`'s decimal digits, with any
/// whitespace around them (such as the trailing line break), chooses line `n`.
pub proof fn lemma_decimal_answer_chooses_line(n: nat, count: nat, before: Seq<char>, after: Seq<char>)
    requires
        n < count,
        count <= usize::MAX,
        all_whitespace(before),
        all_whitespace(after),
    ensures
        menu_choice_spec(before + decimal_text(n) + after, count) == Some(n as int),
{
    let d = decimal_text(n);
    lemma_decimal_text(n);
    assert(!is_whitespace(d[0]) && !is_whitespace(d[d.len() - 1]));
    assert(before + d + after =~= before + (d + after));
    lemma_trim_start_whitespace(before, d + after);
    assert((d + after)[0] == d[0]);
    assert(trim_start_spec(d + after) == d + after);
    lemma_trim_end_whitespace(d, after);
    assert(trim_spec(before + d + after) == d);
    lemma_fold_digits_closed_form(d, 10, usize::MAX as int, 0);
    assert(parse_unsigned_spec(d, 10, usize::MAX as int) == Ok::<int, crate::text::IntErrorKind>(n as int));
}

/// The desktops that show the tray's own menu are exactly KDE, GNOME,
/// X-Cinnamon, LXQt, Deepin, MATE and Pantheon: the desktop list shows it
/// natively when, and only when, one whole `:`-separated part of it names one
/// of them.
pub proof fn lemma_native_desktops(s: Seq<char>)
    ensures
        (exists|j: int| 0 <= j < colon_parts(s).len() && is_native_desktop(#[trigger] colon_parts(s)[j]))
            <==> (exists|j: int|
            0 <= j < colon_parts(s).len() && {
                let p = #[trigger] colon_parts(s)[j];
                ||| p == "KDE"@
                ||| p == "GNOME"@
                ||| p == "X-Cinnamon"@
                ||| p == "LXQt"@
                ||| p == "Deepin"@
                ||| p == "MATE"@
                ||| p == "Pantheon"@
            }),
{
}

} // verus!

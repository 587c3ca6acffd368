use vstd::prelude::*;
use vstd::string::StrSliceExecFns;
use vstd::string::StringExecFns;
use crate::lexer::char_is_digit;
use crate::scan::CharClass;
use crate::scan::all_digits;
use crate::scan::is_digit;
use crate::scan::is_number;
use crate::scan::lemma_run_end_is;
use crate::scan::run_end;

verus! {

/// Start of `s[from..to]` once its leading zeros are dropped; the last
/// character always stays.
pub open spec fn significant_start(s: Seq<char>, from: int, to: int) -> int
    decreases to - from,
{
    if from + 1 < to && s[from] == '0' {
        significant_start(s, from + 1, to)
    } else {
        from
    }
}

/// End of `s[from..to]` once its trailing zeros are dropped.
pub open spec fn significant_end(s: Seq<char>, from: int, to: int) -> int
    decreases to - from,
{
    if from < to && s[to - 1] == '0' {
        significant_end(s, from, to - 1)
    } else {
        to
    }
}

/// Shortest decimal text with the value of `text`: the whole part without
/// leading zeros, then the dot and the fraction without trailing zeros, or
/// the whole part alone where no fraction digit is left.
pub open spec fn decimal_text(text: Seq<char>) -> Seq<char> {
    let dot = run_end(text, 0, CharClass::Digit);
    let whole = text.subrange(significant_start(text, 0, dot), dot);
    let end = significant_end(text, dot + 1, text.len() as int);
    if dot + 1 < end {
        whole + text.subrange(dot, end)
    } else {
        whole
    }
}

/// Renders the decimal text of a number in its shortest form.
pub fn decimal(text: &str) -> (s: String)
    ensures
        s@ == decimal_text(text@),
{
    let n: usize = text.unicode_len();
    let mut dot: usize = 0;
    while dot < n && char_is_digit(text.get_char(dot))
        invariant
            dot <= n,
            n == text@.len(),
            run_end(text@, dot as int, CharClass::Digit) == run_end(text@, 0, CharClass::Digit),
        decreases n - dot,
    {
        dot += 1;
    }
    let mut first: usize = 0;
    while dot - first > 1 && text.get_char(first) == '0'
        invariant
            first <= dot <= n,
            n == text@.len(),
            significant_start(text@, first as int, dot as int) == significant_start(
                text@,
                0,
                dot as int,
            ),
        decreases dot - first,
    {
        first += 1;
    }
    let mut s = String::from_str(text.substring_char(first, dot));
    if dot < n {
        let mut end: usize = n;
        while dot + 1 < end && text.get_char(end - 1) == '0'
            invariant
                dot < end <= n,
                n == text@.len(),
                significant_end(text@, dot + 1, end as int) == significant_end(
                    text@,
                    dot + 1,
                    n as int,
                ),
            decreases end - dot,
        {
            end -= 1;
        }
        if dot + 1 < end {
            s.append(text.substring_char(dot, end));
        }
    }
    s
}

/// Value of a digit.
pub open spec fn digit_value(c: char) -> nat {
    if is_digit(c) {
        (c as int - '0' as int) as nat
    } else {
        0
    }
}

/// The natural number that a run of digits writes; zero for the empty run.
pub open spec fn digits_value(s: Seq<char>) -> nat
    decreases s.len(),
{
    if s.len() == 0 {
        0
    } else {
        10 * digits_value(s.drop_last()) + digit_value(s.last())
    }
}

/// Ten to the `k`.
pub open spec fn pow10(k: nat) -> nat
    decreases k,
{
    if k == 0 {
        1
    } else {
        10 * pow10((k - 1) as nat)
    }
}

/// The digits before the dot.
pub open spec fn whole_part(n: Seq<char>) -> Seq<char> {
    n.subrange(0, run_end(n, 0, CharClass::Digit))
}

/// The digits after the dot; empty where there is no dot.
pub open spec fn fraction_part(n: Seq<char>) -> Seq<char> {
    let dot = run_end(n, 0, CharClass::Digit);
    if dot < n.len() {
        n.subrange(dot + 1, n.len() as int)
    } else {
        Seq::<char>::empty()
    }
}

/// The number that `n` writes, times ten to the number of its fraction
/// digits.
pub open spec fn scaled_value(n: Seq<char>) -> nat {
    digits_value(whole_part(n) + fraction_part(n))
}

/// Two texts write the same number.
pub open spec fn same_number(a: Seq<char>, b: Seq<char>) -> bool {
    scaled_value(a) * pow10(fraction_part(b).len()) == scaled_value(b) * pow10(
        fraction_part(a).len(),
    )
}

/// Every character of `s` is the digit zero.
pub open spec fn all_zeros(s: Seq<char>) -> bool {
    forall|i: int| 0 <= i < s.len() ==> #[trigger] s[i] == '0'
}

/// Powers of ten multiply as their exponents add.
pub proof fn lemma_pow10_sum(a: nat, b: nat)
    ensures
        pow10(a + b) == pow10(a) * pow10(b),
    decreases a,
{
    if a > 0 {
        lemma_pow10_sum((a - 1) as nat, b);
        assert(pow10(a + b) == 10 * pow10((a - 1 + b) as nat));
        assert(10 * (pow10((a - 1) as nat) * pow10(b)) == (10 * pow10((a - 1) as nat)) * pow10(b))
            by (nonlinear_arith);
    } else {
        assert(pow10(a) * pow10(b) == pow10(b)) by (nonlinear_arith)
            requires
                pow10(a) == 1,
        ;
    }
}

/// Zeros at the end multiply the value by ten each.
pub proof fn lemma_trailing_zeros(s: Seq<char>, z: Seq<char>)
    requires
        all_zeros(z),
    ensures
        digits_value(s + z) == digits_value(s) * pow10(z.len()),
    decreases z.len(),
{
    if z.len() == 0 {
        assert(s + z =~= s);
        assert(digits_value(s) * 1 == digits_value(s));
    } else {
        let shorter = z.drop_last();
        assert(all_zeros(shorter)) by {
            assert forall|i: int| 0 <= i < shorter.len() implies #[trigger] shorter[i] == '0' by {
                assert(shorter[i] == z[i]);
            }
        }
        lemma_trailing_zeros(s, shorter);
        assert((s + z).drop_last() =~= s + shorter);
        assert((s + z).last() == z.last());
        assert(z.last() == z[z.len() - 1]);
        assert(digit_value('0') == 0);
        assert(pow10(z.len()) == 10 * pow10(shorter.len()));
        assert(10 * (digits_value(s) * pow10(shorter.len())) == digits_value(s) * (10 * pow10(
            shorter.len(),
        ))) by (nonlinear_arith);
    }
}

/// Zeros at the start leave the value as it is.
pub proof fn lemma_leading_zeros(z: Seq<char>, s: Seq<char>)
    requires
        all_zeros(z),
    ensures
        digits_value(z + s) == digits_value(s),
    decreases s.len(),
{
    if s.len() == 0 {
        lemma_trailing_zeros(s, z);
        assert(z + s =~= s + z);
        assert(digits_value(s) == 0);
        assert(0 * pow10(z.len()) == 0);
    } else {
        lemma_leading_zeros(z, s.drop_last());
        assert((z + s).drop_last() =~= z + s.drop_last());
        assert((z + s).last() == s.last());
    }
}

/// What is dropped at the start is zeros, and the last character stays.
pub proof fn lemma_significant_start(s: Seq<char>, from: int, to: int)
    requires
        0 <= from < to <= s.len(),
    ensures
        from <= significant_start(s, from, to) < to,
        forall|i: int| from <= i < significant_start(s, from, to) ==> #[trigger] s[i] == '0',
    decreases to - from,
{
    if from + 1 < to && s[from] == '0' {
        lemma_significant_start(s, from + 1, to);
    }
}

/// What is dropped at the end is zeros.
pub proof fn lemma_significant_end(s: Seq<char>, from: int, to: int)
    requires
        0 <= from <= to <= s.len(),
    ensures
        from <= significant_end(s, from, to) <= to,
        forall|i: int| significant_end(s, from, to) <= i < to ==> #[trigger] s[i] == '0',
    decreases to - from,
{
    if from < to && s[to - 1] == '0' {
        lemma_significant_end(s, from, to - 1);
    }
}

/// Where the parts of a number lie: its digits run up to the dot, or to the
/// end where it has none.
pub proof fn lemma_number_parts(n: Seq<char>)
    requires
        is_number(n),
    ensures
        0 < run_end(n, 0, CharClass::Digit) <= n.len(),
        all_digits(n, 0, run_end(n, 0, CharClass::Digit)),
        run_end(n, 0, CharClass::Digit) < n.len() ==> {
            let dot = run_end(n, 0, CharClass::Digit);
            n[dot] == '.' && dot + 1 < n.len() && all_digits(n, dot + 1, n.len() as int)
        },
{
    let len = n.len() as int;
    if all_digits(n, 0, len) {
        lemma_run_end_is(n, 0, CharClass::Digit, len);
    } else {
        let d = choose|d: int|
            0 < d < n.len() - 1 && #[trigger] n[d] == '.' && all_digits(n, 0, d) && all_digits(
                n,
                d + 1,
                n.len() as int,
            );
        lemma_run_end_is(n, 0, CharClass::Digit, d);
    }
}

/// The shortest form of a number is a number, and writes the same number.
pub proof fn lemma_decimal_text_keeps_value(n: Seq<char>)
    requires
        is_number(n),
    ensures
        is_number(decimal_text(n)),
        same_number(n, decimal_text(n)),
{
    let len = n.len() as int;
    let dot = run_end(n, 0, CharClass::Digit);
    lemma_number_parts(n);
    let a = significant_start(n, 0, dot);
    lemma_significant_start(n, 0, dot);
    let end = significant_end(n, dot + 1, len);
    let zeros = n.subrange(0, a);
    let whole = n.subrange(a, dot);
    let d = decimal_text(n);
    assert(all_zeros(zeros));
    assert(whole_part(n) =~= zeros + whole);
    if dot < len {
        lemma_significant_end(n, dot + 1, len);
    }
    let kept = if dot + 1 < end {
        n.subrange(dot + 1, end)
    } else {
        Seq::<char>::empty()
    };
    let dropped = if dot < len {
        n.subrange(if dot + 1 < end { end } else { dot + 1 }, len)
    } else {
        Seq::<char>::empty()
    };
    assert(all_zeros(dropped));
    assert(fraction_part(n) =~= kept + dropped);
    // The text without its zeros, as a number.
    if dot + 1 < end {
        assert(d =~= whole + n.subrange(dot, end));
        assert(d[dot - a] == '.');
        assert forall|i: int| 0 <= i < dot - a implies is_digit(#[trigger] d[i]) by {
            assert(d[i] == n[a + i]);
        }
        assert forall|i: int| dot - a + 1 <= i < d.len() implies is_digit(#[trigger] d[i]) by {
            assert(d[i] == n[a + i]);
        }
        lemma_run_end_is(d, 0, CharClass::Digit, dot - a);
        assert(all_digits(d, 0, dot - a));
        assert(all_digits(d, dot - a + 1, d.len() as int));
        assert(is_number(d));
        assert(whole_part(d) =~= whole);
        assert(fraction_part(d) =~= kept);
    } else {
        assert(d =~= whole);
        assert forall|i: int| 0 <= i < d.len() implies is_digit(#[trigger] d[i]) by {
            assert(d[i] == n[a + i]);
        }
        lemma_run_end_is(d, 0, CharClass::Digit, d.len() as int);
        assert(all_digits(d, 0, d.len() as int));
        assert(is_number(d));
        assert(whole_part(d) =~= whole);
        assert(fraction_part(d) =~= kept);
    }
    // The zeros change the value by a power of ten alone.
    let core = whole + kept;
    assert(whole_part(n) + fraction_part(n) =~= zeros + (core + dropped));
    lemma_leading_zeros(zeros, core + dropped);
    lemma_trailing_zeros(core, dropped);
    assert(scaled_value(n) == digits_value(core) * pow10(dropped.len()));
    assert(scaled_value(d) == digits_value(core));
    lemma_pow10_sum(kept.len(), dropped.len());
    assert(fraction_part(n).len() == kept.len() + dropped.len());
    assert((digits_value(core) * pow10(dropped.len())) * pow10(kept.len()) == digits_value(core) * (
    pow10(kept.len()) * pow10(dropped.len()))) by (nonlinear_arith);
}

} // verus!

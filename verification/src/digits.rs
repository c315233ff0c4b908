//! Decimal renderings of unsigned numbers.
//!
//! Direct-message channel names embed user identity hashes as decimal
//! digit runs, so the hub needs an exact account of what the canonical
//! rendering of a number looks like and how to read one back.

use vstd::prelude::*;

verus! {

/// A decimal digit character.
pub open spec fn is_digit_char(c: char) -> bool {
    '0' as int <= c as int <= '9' as int
}

/// The numeric value of a decimal digit character.
pub open spec fn digit_val(c: char) -> nat {
    (c as int - '0' as int) as nat
}

/// The character for a digit value below ten.
pub open spec fn digit_char(d: nat) -> char {
    if d == 0 {
        '0'
    } else if d == 1 {
        '1'
    } else if d == 2 {
        '2'
    } else if d == 3 {
        '3'
    } else if d == 4 {
        '4'
    } else if d == 5 {
        '5'
    } else if d == 6 {
        '6'
    } else if d == 7 {
        '7'
    } else if d == 8 {
        '8'
    } else {
        '9'
    }
}

/// Every character of `s` is a decimal digit.
pub open spec fn all_digits(s: Seq<char>) -> bool {
    forall|i: int| 0 <= i < s.len() ==> is_digit_char(#[trigger] s[i])
}

/// The number a run of digits denotes, most significant first.
pub open spec fn dec_value(s: Seq<char>) -> nat
    decreases s.len(),
{
    if s.len() == 0 {
        0
    } else {
        dec_value(s.drop_last()) * 10 + digit_val(s.last())
    }
}

/// The canonical decimal rendering of `n`: no sign, no leading zero.
pub open spec fn dec_digits(n: nat) -> Seq<char>
    decreases n,
{
    if n < 10 {
        seq![digit_char(n)]
    } else {
        dec_digits(n / 10).push(digit_char(n % 10))
    }
}

/// A digit run that some number renders to: nonempty, digits only, and
/// without a leading zero.
pub open spec fn canonical_digits(s: Seq<char>) -> bool {
    &&& s.len() > 0
    &&& all_digits(s)
    &&& s.len() > 1 ==> s[0] != '0'
}

pub proof fn lemma_digit_char_val(d: nat)
    requires
        d < 10,
    ensures
        is_digit_char(digit_char(d)),
        digit_val(digit_char(d)) == d,
        d != 0 ==> digit_char(d) != '0',
{
}

/// The canonical rendering is canonical and denotes the number it was
/// made from.
pub proof fn lemma_dec_digits_wf(n: nat)
    ensures
        canonical_digits(dec_digits(n)),
        dec_value(dec_digits(n)) == n,
        n < 10 <==> dec_digits(n).len() == 1,
    decreases n,
{
    if n < 10 {
        lemma_digit_char_val(n);
        assert(dec_digits(n) =~= seq![digit_char(n)]);
        assert(dec_digits(n).drop_last() =~= Seq::<char>::empty());
        assert(dec_value(Seq::<char>::empty()) == 0);
    } else {
        lemma_dec_digits_wf(n / 10);
        lemma_digit_char_val(n % 10);
        let s = dec_digits(n / 10).push(digit_char(n % 10));
        assert(s.drop_last() =~= dec_digits(n / 10));
        assert(s.last() == digit_char(n % 10));
        assert(dec_value(s) == (n / 10) * 10 + n % 10);
        assert((n / 10) * 10 + n % 10 == n) by (nonlinear_arith);
        assert(s[0] == dec_digits(n / 10)[0]);
        assert(forall|i: int| 0 <= i < s.len() ==> is_digit_char(#[trigger] s[i])) by {
            assert(forall|i: int|
                0 <= i < s.len() - 1 ==> s[i] == #[trigger] dec_digits(n / 10)[i]);
        }
    }
}

/// A canonical run of more than one digit denotes at least ten.
pub proof fn lemma_canonical_value_at_least_ten(s: Seq<char>)
    requires
        canonical_digits(s),
        s.len() > 1,
    ensures
        dec_value(s) >= 10,
    decreases s.len(),
{
    let p = s.drop_last();
    assert(p[0] == s[0]);
    assert(all_digits(p)) by {
        assert(forall|i: int| 0 <= i < p.len() ==> p[i] == #[trigger] s[i]);
    }
    if p.len() == 1 {
        assert(digit_val(p[0]) >= 1);
        assert(p.drop_last() =~= Seq::<char>::empty());
        assert(dec_value(Seq::<char>::empty()) == 0);
        assert(dec_value(p) == digit_val(p[0]));
    } else {
        lemma_canonical_value_at_least_ten(p);
    }
    assert(dec_value(p) * 10 >= 10) by (nonlinear_arith)
        requires dec_value(p) >= 1;
}

/// A canonical digit run is the rendering of its own value.
pub proof fn lemma_canonical_round_trip(s: Seq<char>)
    requires
        canonical_digits(s),
    ensures
        dec_digits(dec_value(s)) == s,
    decreases s.len(),
{
    let n = dec_value(s);
    if s.len() == 1 {
        assert(s.drop_last() =~= Seq::<char>::empty());
        assert(n == digit_val(s[0]));
        assert(n < 10);
        assert(digit_char(n) == s[0]);
        assert(dec_digits(n) =~= seq![s[0]]);
        assert(dec_digits(n) =~= s);
    } else {
        let p = s.drop_last();
        let d = digit_val(s.last());
        assert(p[0] == s[0]);
        assert(all_digits(p)) by {
            assert(forall|i: int| 0 <= i < p.len() ==> p[i] == #[trigger] s[i]);
        }
        assert(is_digit_char(s.last()));
        assert(d < 10);
        lemma_canonical_value_at_least_ten(s);
        assert(n == dec_value(p) * 10 + d);
        assert(n / 10 == dec_value(p) && n % 10 == d) by (nonlinear_arith)
            requires n == dec_value(p) * 10 + d, d < 10;
        lemma_canonical_round_trip(p);
        assert(digit_char(d) == s.last()) by {
            assert(digit_val(digit_char(d)) == d) by { lemma_digit_char_val(d); }
            assert(is_digit_char(s.last()) && digit_val(s.last()) == d);
        }
        assert(dec_digits(n) =~= p.push(s.last()));
        assert(p.push(s.last()) =~= s);
    }
}

/// Two numbers with the same rendering are equal.
pub proof fn lemma_dec_digits_injective(a: nat, b: nat)
    requires
        dec_digits(a) == dec_digits(b),
    ensures
        a == b,
{
    lemma_dec_digits_wf(a);
    lemma_dec_digits_wf(b);
}

/// Reading a longer prefix of a digit run never lowers the value.
pub proof fn lemma_dec_value_prefix_monotone(s: Seq<char>, j: int)
    requires
        0 <= j <= s.len(),
    ensures
        dec_value(s.subrange(0, j)) <= dec_value(s),
    decreases s.len() - j,
{
    if j < s.len() {
        let p = s.subrange(0, j);
        let q = s.subrange(0, j + 1);
        assert(q.drop_last() =~= p);
        assert(dec_value(q) == dec_value(p) * 10 + digit_val(q.last()));
        assert(dec_value(p) * 10 >= dec_value(p)) by (nonlinear_arith);
        lemma_dec_value_prefix_monotone(s, j + 1);
    } else {
        assert(s.subrange(0, j) =~= s);
    }
}

/// Appends one digit character to a string.
fn push_digit(s: &mut String, d: u64)
    requires
        d < 10,
    ensures
        final(s)@ == old(s)@.push(digit_char(d as nat)),
{
    let piece: &str = if d == 0 {
        "0"
    } else if d == 1 {
        "1"
    } else if d == 2 {
        "2"
    } else if d == 3 {
        "3"
    } else if d == 4 {
        "4"
    } else if d == 5 {
        "5"
    } else if d == 6 {
        "6"
    } else if d == 7 {
        "7"
    } else if d == 8 {
        "8"
    } else {
        "9"
    };
    proof {
        reveal_strlit("0");
        reveal_strlit("1");
        reveal_strlit("2");
        reveal_strlit("3");
        reveal_strlit("4");
        reveal_strlit("5");
        reveal_strlit("6");
        reveal_strlit("7");
        reveal_strlit("8");
        reveal_strlit("9");
    }
    assert(piece@ =~= seq![digit_char(d as nat)]);
    s.append(piece);
    assert(old(s)@ + piece@ =~= old(s)@.push(digit_char(d as nat)));
}

/// Appends the canonical decimal rendering of `n` to a string.
pub fn push_decimal(s: &mut String, n: u64)
    ensures
        final(s)@ == old(s)@ + dec_digits(n as nat),
    decreases n,
{
    if n < 10 {
        push_digit(s, n);
        assert(old(s)@.push(digit_char(n as nat)) =~= old(s)@ + dec_digits(n as nat));
    } else {
        push_decimal(s, n / 10);
        push_digit(s, n % 10);
        assert((old(s)@ + dec_digits((n / 10) as nat)).push(digit_char((n % 10) as nat))
            =~= old(s)@ + dec_digits(n as nat)) by {
            assert(dec_digits(n as nat) == dec_digits(n as nat / 10).push(
                digit_char(n as nat % 10)));
            assert(n as nat / 10 == (n / 10) as nat);
            assert(n as nat % 10 == (n % 10) as nat);
        }
    }
}

/// Reads the digit run `s[from..to]` as a number.  Returns the value
/// exactly when the range is nonempty, holds digits only, and denotes a
/// number that fits in a `u64`.
pub fn parse_digit_run(s: &str, from: usize, to: usize) -> (r: Option<u64>)
    requires
        from <= to <= s@.len(),
    ensures
        match r {
            Some(v) => {
                let run = s@.subrange(from as int, to as int);
                &&& from < to
                &&& all_digits(run)
                &&& dec_value(run) == v as nat
            },
            None => {
                let run = s@.subrange(from as int, to as int);
                ||| from == to
                ||| !all_digits(run)
                ||| dec_value(run) > u64::MAX
            },
        },
{
    if from == to {
        return None;
    }
    let ghost run = s@.subrange(from as int, to as int);
    let mut acc: u64 = 0;
    let mut i: usize = from;
    while i < to
        invariant
            from <= i <= to <= s@.len(),
            run == s@.subrange(from as int, to as int),
            all_digits(run.subrange(0, i - from)),
            dec_value(run.subrange(0, i - from)) == acc as nat,
        decreases to - i,
    {
        let c = s.get_char(i);
        assert(c == run[i - from]);
        if c < '0' || c > '9' {
            assert(!is_digit_char(run[i - from]));
            return None;
        }
        let d: u64 = (c as u32 as u64) - 48;
        assert(is_digit_char(c));
        assert(d == digit_val(c));
        let stepped = match acc.checked_mul(10) {
            Some(shifted) => shifted.checked_add(d),
            None => None,
        };
        let ghost prefix = run.subrange(0, i - from);
        let ghost grown = run.subrange(0, i + 1 - from);
        assert(grown.drop_last() =~= prefix);
        assert(grown.last() == c);
        assert(dec_value(grown) == acc as nat * 10 + digit_val(c));
        assert(all_digits(grown)) by {
            assert(forall|k: int|
                0 <= k < prefix.len() ==> prefix[k] == #[trigger] grown[k]);
        }
        match stepped {
            Some(next) => {
                acc = next;
            },
            None => {
                assert(dec_value(grown) > u64::MAX);
                proof {
                    lemma_dec_value_prefix_monotone(run, i + 1 - from);
                }
                return None;
            },
        }
        i = i + 1;
    }
    assert(run.subrange(0, to - from) =~= run);
    Some(acc)
}

} // verus!

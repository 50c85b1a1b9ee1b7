//! Characters, decimal digits and small string-building helpers shared by
//! the URL builder, the pagination parser and the cache codec.

use vstd::prelude::*;

verus! {

/// Is `c` one of the ten decimal digit characters?
pub open spec fn is_digit_char(c: char) -> bool {
    48 <= c as u32 <= 57
}

/// The numeric value of a digit character.
pub open spec fn digit_val(c: char) -> nat {
    (c as u32 - 48) as nat
}

/// The digit character for a value below ten.
pub open spec fn spec_digit_char(d: nat) -> char {
    if d == 0 {
        '0'
    } else if d == 1 {
        '1'
    } else if d == 2 {
        '2'
    } else if d == 3 {
        '3'
    } else if d == 4 {
        '4'
    } else if d == 5 {
        '5'
    } else if d == 6 {
        '6'
    } else if d == 7 {
        '7'
    } else if d == 8 {
        '8'
    } else {
        '9'
    }
}

/// The value of a digit sequence read left to right, starting from `acc`.
pub open spec fn digits_val_acc(s: Seq<char>, acc: nat) -> nat
    decreases s.len(),
{
    if s.len() == 0 {
        acc
    } else {
        digits_val_acc(s.drop_first(), acc * 10 + digit_val(s.first()))
    }
}

/// The value of a decimal digit sequence.
pub open spec fn digits_val(s: Seq<char>) -> nat {
    digits_val_acc(s, 0)
}

/// The canonical decimal digit sequence of `n`: no leading zero except for
/// `n == 0` itself.
pub open spec fn dec_digits(n: nat) -> Seq<char>
    decreases n,
{
    if n < 10 {
        seq![spec_digit_char(n)]
    } else {
        dec_digits(n / 10).push(spec_digit_char(n % 10))
    }
}

pub proof fn lemma_digit_char_val(d: nat)
    requires
        d < 10,
    ensures
        digit_val(spec_digit_char(d)) == d,
        is_digit_char(spec_digit_char(d)),
{
}

/// Reading one more digit on the right multiplies the value read so far
/// by ten.
pub proof fn lemma_digits_val_acc_push(s: Seq<char>, c: char, acc: nat)
    ensures
        digits_val_acc(s.push(c), acc) == digits_val_acc(s, acc) * 10 + digit_val(c),
    decreases s.len(),
{
    if s.len() == 0 {
        assert(s.push(c).len() == 1 && s.push(c).first() == c);
        assert(digits_val_acc(s.push(c), acc) == digits_val_acc(
            s.push(c).drop_first(),
            acc * 10 + digit_val(c),
        ));
        assert(s.push(c).drop_first() =~= Seq::<char>::empty());
        assert(digits_val_acc(Seq::<char>::empty(), acc * 10 + digit_val(c)) == acc * 10
            + digit_val(c));
    } else {
        assert(s.push(c).first() == s.first());
        assert(digits_val_acc(s.push(c), acc) == digits_val_acc(
            s.push(c).drop_first(),
            acc * 10 + digit_val(s.first()),
        ));
        assert(s.push(c).drop_first() =~= s.drop_first().push(c));
        lemma_digits_val_acc_push(s.drop_first(), c, acc * 10 + digit_val(s.first()));
        assert(digits_val_acc(s, acc) == digits_val_acc(
            s.drop_first(),
            acc * 10 + digit_val(s.first()),
        ));
    }
}

/// Printing and re-reading a number is the identity.
pub proof fn lemma_dec_digits_val(n: nat)
    ensures
        digits_val(dec_digits(n)) == n,
    decreases n,
{
    lemma_dec_digits_val_acc(n);
}

proof fn lemma_dec_digits_val_acc(n: nat)
    ensures
        digits_val_acc(dec_digits(n), 0) == n,
    decreases n,
{
    if n < 10 {
        lemma_digit_char_val(n);
        assert(dec_digits(n) == seq![spec_digit_char(n)]);
        assert(digits_val_acc(dec_digits(n), 0) == digits_val_acc(
            dec_digits(n).drop_first(),
            digit_val(spec_digit_char(n)),
        ));
        assert(dec_digits(n).drop_first() =~= Seq::<char>::empty());
        assert(digits_val_acc(Seq::<char>::empty(), digit_val(spec_digit_char(n))) == digit_val(
            spec_digit_char(n),
        ));
    } else {
        lemma_dec_digits_val_acc(n / 10);
        lemma_digits_val_acc_push(dec_digits(n / 10), spec_digit_char(n % 10), 0);
        lemma_digit_char_val(n % 10);
        assert(n == (n / 10) * 10 + n % 10) by {
            vstd::arithmetic::div_mod::lemma_fundamental_div_mod(n as int, 10);
        }
    }
}

/// Every character of a printed number is a digit, and there is at least
/// one of them.
pub proof fn lemma_dec_digits_shape(n: nat)
    ensures
        dec_digits(n).len() >= 1,
        forall|i: int| 0 <= i < dec_digits(n).len() ==> is_digit_char(#[trigger] dec_digits(n)[i]),
    decreases n,
{
    lemma_digit_char_val(n % 10);
    if n < 10 {
        lemma_digit_char_val(n);
    } else {
        lemma_dec_digits_shape(n / 10);
    }
}

/// The digit character for a value below ten.
pub fn digit_char(d: usize) -> (c: char)
    requires
        d < 10,
    ensures
        c == spec_digit_char(d as nat),
{
    match d {
        0 => '0',
        1 => '1',
        2 => '2',
        3 => '3',
        4 => '4',
        5 => '5',
        6 => '6',
        7 => '7',
        8 => '8',
        _ => '9',
    }
}

/// Is `c` a decimal digit, and if so which one?
pub fn digit_of(c: char) -> (r: Option<usize>)
    ensures
        match r {
            Some(d) => is_digit_char(c) && d as nat == digit_val(c) && d < 10,
            None => !is_digit_char(c),
        },
{
    let u = c as u32;
    if 48 <= u && u <= 57 {
        Some((u - 48) as usize)
    } else {
        None
    }
}

/// The position right after the run of digits that starts at `j`.
pub open spec fn digit_run_end(s: Seq<char>, j: int) -> int
    decreases s.len() - j,
{
    if j < 0 || j >= s.len() || !is_digit_char(s[j]) {
        j
    } else {
        digit_run_end(s, j + 1)
    }
}

/// The digit run ends at the first position that is past the end or
/// holds a non-digit.
pub proof fn lemma_digit_run_end_at(s: Seq<char>, j: int, m: int)
    requires
        0 <= j <= m <= s.len(),
        forall|k: int| j <= k < m ==> is_digit_char(#[trigger] s[k]),
        m == s.len() || !is_digit_char(s[m]),
    ensures
        digit_run_end(s, j) == m,
    decreases m - j,
{
    if j < m {
        lemma_digit_run_end_at(s, j + 1, m);
    }
}

/// Where the run ends, and that everything before it is digits.
pub proof fn lemma_digit_run_end_props(s: Seq<char>, j: int)
    requires
        0 <= j <= s.len(),
    ensures
        j <= digit_run_end(s, j) <= s.len(),
        forall|k: int| j <= k < digit_run_end(s, j) ==> is_digit_char(#[trigger] s[k]),
        digit_run_end(s, j) == s.len() || !is_digit_char(s[digit_run_end(s, j)]),
    decreases s.len() - j,
{
    if j < s.len() && is_digit_char(s[j]) {
        lemma_digit_run_end_props(s, j + 1);
    }
}

/// Scan the run of digits that starts at `start`: its end, and its value
/// unless the value exceeds `usize::MAX`.
pub fn scan_digits(v: &Vec<char>, start: usize) -> (r: (Option<usize>, usize))
    requires
        start <= v.len(),
    ensures
        r.1 == digit_run_end(v@, start as int),
        start <= r.1 <= v.len(),
        match r.0 {
            Some(value) => value as nat == digits_val(v@.subrange(start as int, r.1 as int)),
            None => digits_val(v@.subrange(start as int, r.1 as int)) > usize::MAX,
        },
{
    let mut k: usize = start;
    let mut acc: Option<usize> = Some(0);
    while k < v.len() && digit_of(v[k]).is_some()
        invariant
            start <= k <= v.len(),
            digit_run_end(v@, start as int) == digit_run_end(v@, k as int),
            match acc {
                Some(value) => value as nat == digits_val_acc(
                    v@.subrange(start as int, k as int),
                    0,
                ),
                None => digits_val_acc(v@.subrange(start as int, k as int), 0) > usize::MAX,
            },
        decreases v.len() - k,
    {
        let d: usize = digit_of(v[k]).unwrap();
        let ghost pre = v@.subrange(start as int, k as int);
        assert(v@.subrange(start as int, k as int + 1) =~= pre.push(v@[k as int]));
        assert(digit_run_end(v@, k as int) == digit_run_end(v@, k as int + 1));
        proof {
            lemma_digits_val_acc_push(pre, v@[k as int], 0);
        }
        acc = match acc {
            Some(value) => {
                match value.checked_mul(10) {
                    Some(m) => m.checked_add(d),
                    None => None,
                }
            },
            None => None,
        };
        k = k + 1;
    }
    assert(digit_run_end(v@, k as int) == k as int);
    (acc, k)
}

/// Relies on `String::push` from std: appends exactly one character.
#[verifier::external_body]
pub fn push_char(s: &mut String, c: char)
    ensures
        final(s)@ == old(s)@.push(c),
{
    s.push(c);
}

/// The characters of a string slice, as a vector.
pub fn chars_vec(s: &str) -> (v: Vec<char>)
    ensures
        v@ == s@,
{
    let len = s.unicode_len();
    let mut v: Vec<char> = Vec::new();
    let mut i: usize = 0;
    while i < len
        invariant
            i <= len,
            len == s@.len(),
            v@ =~= s@.take(i as int),
        decreases len - i,
    {
        let c = s.get_char(i);
        v.push(c);
        assert(v@ =~= s@.take(i as int + 1));
        i = i + 1;
    }
    assert(v@ =~= s@);
    v
}

/// Append the canonical decimal digits of `n` to `s`.
pub fn push_decimal(s: &mut String, n: usize)
    ensures
        final(s)@ == old(s)@ + dec_digits(n as nat),
{
    if n == 0 {
        push_char(s, '0');
        assert(s@ =~= old(s)@ + dec_digits(0));
        return;
    }
    let mut rev: Vec<char> = Vec::new();
    let mut cur: usize = n;
    // collect the digits of `n`, least significant first
    while cur > 0
        invariant
            dec_digits(n as nat) =~= (if cur > 0 {
                dec_digits(cur as nat)
            } else {
                Seq::<char>::empty()
            }) + rev@.reverse(),
        decreases cur,
    {
        let d = cur % 10;
        let next = cur / 10;
        proof {
            vstd::arithmetic::div_mod::lemma_fundamental_div_mod(cur as int, 10);
        }
        let ghost old_rev = rev@;
        rev.push(digit_char(d));
        assert(rev@.reverse() =~= seq![spec_digit_char(d as nat)] + old_rev.reverse());
        if next == 0 {
            // cur = next * 10 + d, so cur is a single digit here
            assert(dec_digits(cur as nat) =~= seq![spec_digit_char(cur as nat)]);
            assert(d == cur);
        } else {
            assert(dec_digits(cur as nat) =~= dec_digits(next as nat).push(
                spec_digit_char(d as nat),
            ));
            assert(dec_digits(next as nat).push(spec_digit_char(d as nat)) =~= dec_digits(
                next as nat,
            ) + seq![spec_digit_char(d as nat)]);
        }
        cur = next;
    }
    assert(dec_digits(n as nat) =~= rev@.reverse());
    let mut j: usize = rev.len();
    while j > 0
        invariant
            j <= rev.len(),
            s@ =~= old(s)@ + rev@.reverse().take(rev@.len() - j),
        decreases j,
    {
        let c = rev[j - 1];
        push_char(s, c);
        assert(s@ =~= old(s)@ + rev@.reverse().take(rev@.len() - (j - 1)));
        j = j - 1;
    }
    assert(rev@.reverse().take(rev@.len() as int) =~= rev@.reverse());
}

/// The canonical decimal rendering of `n`.
pub fn usize_to_string(n: usize) -> (s: String)
    ensures
        s@ == dec_digits(n as nat),
{
    let mut s = String::new();
    push_decimal(&mut s, n);
    assert(s@ =~= dec_digits(n as nat));
    s
}

} // verus!

use vstd::prelude::*;
use vstd::string::StrSliceExecFns;

verus! {

/// Whether two string slices hold the same characters.
pub(crate) fn str_content_eq(a: &str, b: &str) -> (r: bool)
    ensures
        r == (a@ == b@),
{
    let la = a.unicode_len();
    let lb = b.unicode_len();
    if la != lb {
        return false;
    }
    let mut k: usize = 0;
    while k < la
        invariant
            k <= la,
            la == a@.len(),
            lb == b@.len(),
            la == lb,
            forall|j: int| 0 <= j < k ==> a@[j] == b@[j],
        decreases la - k,
    {
        if a.get_char(k) != b.get_char(k) {
            return false;
        }
        k = k + 1;
    }
    proof {
        assert(a@ =~= b@);
    }
    true
}

/// The decimal digits of `n`, most significant first.
pub open spec fn spec_digits(n: nat) -> Seq<char>
    decreases n,
{
    if n < 10 {
        seq![spec_digit(n)]
    } else {
        spec_digits(n / 10).push(spec_digit(n % 10))
    }
}

/// The character for one decimal digit.
pub open spec fn spec_digit(d: nat) -> char {
    if d == 0 {
        '0'
    } else if d == 1 {
        '1'
    } else if d == 2 {
        '2'
    } else if d == 3 {
        '3'
    } else if d == 4 {
        '4'
    } else if d == 5 {
        '5'
    } else if d == 6 {
        '6'
    } else if d == 7 {
        '7'
    } else if d == 8 {
        '8'
    } else {
        '9'
    }
}

fn digit_char(d: usize) -> (c: char)
    requires
        d < 10,
    ensures
        c == spec_digit(d as nat),
{
    if d == 0 {
        '0'
    } else if d == 1 {
        '1'
    } else if d == 2 {
        '2'
    } else if d == 3 {
        '3'
    } else if d == 4 {
        '4'
    } else if d == 5 {
        '5'
    } else if d == 6 {
        '6'
    } else if d == 7 {
        '7'
    } else if d == 8 {
        '8'
    } else {
        '9'
    }
}

/// The decimal rendering of `n`.
pub fn usize_to_string(n: usize) -> (r: String)
    ensures
        r@ == spec_digits(n as nat),
{
    let mut backwards: Vec<char> = Vec::new();
    let mut m: usize = n;
    proof {
        assert(backwards@.reverse() =~= Seq::<char>::empty());
        assert(spec_digits(n as nat) + Seq::<char>::empty() =~= spec_digits(n as nat));
    }
    while m >= 10
        invariant
            spec_digits(n as nat) == spec_digits(m as nat) + backwards@.reverse(),
        decreases m,
    {
        let d = digit_char(m % 10);
        backwards.push(d);
        proof {
            assert(backwards@.reverse() =~= seq![d] + backwards@.drop_last().reverse());
            assert(spec_digits(n as nat) =~= spec_digits((m as nat) / 10) + backwards@.reverse());
        }
        m = m / 10;
    }
    let d = digit_char(m);
    backwards.push(d);
    proof {
        assert(backwards@.reverse() =~= seq![d] + backwards@.drop_last().reverse());
        assert(spec_digits(n as nat) =~= backwards@.reverse());
    }
    let mut chars: Vec<char> = Vec::new();
    let total = backwards.len();
    let mut i: usize = 0;
    while i < total
        invariant
            i <= total,
            total == backwards@.len(),
            chars@ == backwards@.reverse().take(i as int),
        decreases total - i,
    {
        chars.push(backwards[total - 1 - i]);
        i = i + 1;
        proof {
            assert(chars@ =~= backwards@.reverse().take(i as int));
        }
    }
    proof {
        assert(backwards@.reverse().take(total as int) =~= backwards@.reverse());
    }
    crate::lexer::string_from_chars(&chars)
}

} // verus!

//! The state of a capture-the-flag match that the HUD shows.
use vstd::prelude::*;
use vstd::string::*;

use crate::number::{
    all_digits, append_decimal, decimal_text, digit_char, digit_value, digits_value,
};

verus! {

/// The decimal text of `n`, at least two digits wide.
pub open spec fn two_digits(n: nat) -> Seq<char> {
    if n < 10 {
        seq!['0'] + decimal_text(n)
    } else {
        decimal_text(n)
    }
}

proof fn lemma_decimal_text(n: nat)
    ensures
        decimal_text(n).len() >= 1,
        all_digits(decimal_text(n)),
        digits_value(decimal_text(n)) == n,
        n < 10 ==> decimal_text(n).len() == 1,
        n >= 10 ==> decimal_text(n).len() >= 2,
        n >= 10 ==> decimal_text(n)[0] != '0',
        n > 0 ==> decimal_text(n)[0] != '0',
    decreases n,
{
    if n >= 10 {
        lemma_decimal_text(n / 10);
        let t = decimal_text(n / 10);
        let s = decimal_text(n);
        assert(s == t.push(digit_char(n % 10)));
        assert(s.drop_last() =~= t);
        assert(s[0] == t[0]);
        assert(digit_value(digit_char(n % 10)) == n % 10);
        assert(digits_value(s) == digits_value(t) * 10 + n % 10);
        assert((n / 10) * 10 + n % 10 == n);
    } else {
        let s = decimal_text(n);
        assert(s.drop_last() =~= Seq::<char>::empty());
        assert(digits_value(Seq::<char>::empty()) == 0);
        assert(s.last() == digit_char(n));
        assert(digit_value(digit_char(n)) == n);
        assert(digits_value(s) == digits_value(s.drop_last()) * 10 + digit_value(s.last()));
    }
}

/// The padded text of `n` reads back as `n`, is as long as the decimal
/// text of `n` but at least two characters, and has a leading zero exactly
/// when `n` has a single digit: `7` is `07`, `10` is `10`, `123` is `123`.
pub proof fn law_two_digits(n: nat)
    ensures
        all_digits(two_digits(n)),
        digits_value(two_digits(n)) == n,
        two_digits(n).len() == (if decimal_text(n).len() < 2 {
            2
        } else {
            decimal_text(n).len()
        }),
        (two_digits(n)[0] == '0') == (n < 10),
        n >= 10 ==> two_digits(n) == decimal_text(n),
{
    lemma_decimal_text(n);
    if n < 10 {
        let s = two_digits(n);
        assert(s.len() == 2);
        assert(s.drop_last() =~= seq!['0']);
        assert(seq!['0'].drop_last() =~= Seq::<char>::empty());
        assert(digits_value(Seq::<char>::empty()) == 0);
        assert(s[1] == decimal_text(n)[0]);
        assert(digits_value(seq!['0']) == 0);
    }
}

/// The state of a capture-the-flag match: the time left on the match
/// timer, and its full length, in nanoseconds.
pub struct CaptureTheFlagState {
    pub left_nanos: u64,
    pub total_nanos: u64,
}

impl CaptureTheFlagState {
    /// Counts `delta_nanos` off the match timer, stopping at zero.
    pub fn tick(&mut self, delta_nanos: u64)
        ensures
            final(self).total_nanos == old(self).total_nanos,
            final(self).left_nanos == if old(self).left_nanos >= delta_nanos {
                old(self).left_nanos - delta_nanos
            } else {
                0
            },
    {
        self.left_nanos = self.left_nanos.saturating_sub(delta_nanos);
    }

    /// The timer as the HUD shows it: `CTF: ` and the whole minutes and
    /// seconds left, each at least two digits wide.
    pub fn timer_text(&self) -> (r: String)
        ensures
            ({
                let secs = self.left_nanos / 1_000_000_000;
                r@ == "CTF: "@ + two_digits(secs as nat / 60) + ":"@ + two_digits(secs as nat % 60)
            }),
    {
        let secs = self.left_nanos / 1_000_000_000;
        let minutes = secs / 60;
        let seconds = secs % 60;
        let mut text = String::from_str("CTF: ");
        if minutes < 10 {
            text.append("0");
        }
        append_decimal(&mut text, minutes);
        text.append(":");
        if seconds < 10 {
            text.append("0");
        }
        append_decimal(&mut text, seconds);
        proof {
            reveal_strlit("CTF: ");
            reveal_strlit("0");
            reveal_strlit(":");
        }
        assert(text@ =~= "CTF: "@ + two_digits(secs as nat / 60) + ":"@ + two_digits(
            secs as nat % 60,
        ));
        text
    }
}

} // verus!

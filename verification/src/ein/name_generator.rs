//! Fresh names: a prefix followed by a counter in decimal.
use vstd::prelude::*;

verus! {

/// The character of a decimal digit.
pub open spec fn digit_char(value: nat) -> char {
    if value == 0 {
        '0'
    } else if value == 1 {
        '1'
    } else if value == 2 {
        '2'
    } else if value == 3 {
        '3'
    } else if value == 4 {
        '4'
    } else if value == 5 {
        '5'
    } else if value == 6 {
        '6'
    } else if value == 7 {
        '7'
    } else if value == 8 {
        '8'
    } else {
        '9'
    }
}

/// `number` in decimal, without leading zeros.
pub open spec fn decimal(number: nat) -> Seq<char>
    decreases number,
{
    if number < 10 {
        seq![digit_char(number)]
    } else {
        decimal(number / 10).push(digit_char(number % 10))
    }
}

/// A number in decimal has at least one digit.
proof fn lemma_decimal_nonempty(number: nat)
    ensures
        decimal(number).len() >= 1,
    decreases number,
{
    if number >= 10 {
        lemma_decimal_nonempty(number / 10);
    }
}

proof fn lemma_digit_char_injective(a: nat, b: nat)
    requires
        a < 10,
        b < 10,
        digit_char(a) == digit_char(b),
    ensures
        a == b,
{
}

/// Different numbers are written differently in decimal.
pub proof fn lemma_decimal_injective(m: nat, n: nat)
    requires
        decimal(m) == decimal(n),
    ensures
        m == n,
    decreases m + n,
{
    if m < 10 && n < 10 {
        assert(decimal(m) == seq![digit_char(m)]);
        assert(decimal(n) == seq![digit_char(n)]);
        assert(decimal(m)[0] == decimal(n)[0]);
        assert(decimal(m)[0] == digit_char(m));
        assert(digit_char(m) == digit_char(n));
        lemma_digit_char_injective(m, n);
    } else if m < 10 {
        lemma_decimal_nonempty(n / 10);
        assert(decimal(n).len() >= 2);
    } else if n < 10 {
        lemma_decimal_nonempty(m / 10);
        assert(decimal(m).len() >= 2);
    } else {
        assert(decimal(m) == decimal(m / 10).push(digit_char(m % 10)));
        assert(decimal(n) == decimal(n / 10).push(digit_char(n % 10)));
        assert(decimal(m).last() == decimal(n).last());
        assert(decimal(m).last() == digit_char(m % 10));
        assert(digit_char(m % 10) == digit_char(n % 10));
        lemma_digit_char_injective(m % 10, n % 10);
        assert(decimal(m).drop_last() =~= decimal(m / 10));
        assert(decimal(n).drop_last() =~= decimal(n / 10));
        lemma_decimal_injective(m / 10, n / 10);
    }
}

/// The names made from one prefix and two different counts differ: a name
/// generator never gives the same name twice.
pub proof fn lemma_generated_names_distinct(prefix: Seq<char>, m: nat, n: nat)
    requires
        m != n,
    ensures
        prefix + decimal(m) != prefix + decimal(n),
{
    if prefix + decimal(m) == prefix + decimal(n) {
        assert((prefix + decimal(m)).skip(prefix.len() as int) =~= decimal(m));
        assert((prefix + decimal(n)).skip(prefix.len() as int) =~= decimal(n));
        lemma_decimal_injective(m, n);
    }
}

fn digit_text(value: u64) -> (text: &'static str)
    requires
        value < 10,
    ensures
        text@ == seq![digit_char(value as nat)],
{
    if value == 0 {
        proof {
            reveal_strlit("0");
        }
        "0"
    } else if value == 1 {
        proof {
            reveal_strlit("1");
        }
        "1"
    } else if value == 2 {
        proof {
            reveal_strlit("2");
        }
        "2"
    } else if value == 3 {
        proof {
            reveal_strlit("3");
        }
        "3"
    } else if value == 4 {
        proof {
            reveal_strlit("4");
        }
        "4"
    } else if value == 5 {
        proof {
            reveal_strlit("5");
        }
        "5"
    } else if value == 6 {
        proof {
            reveal_strlit("6");
        }
        "6"
    } else if value == 7 {
        proof {
            reveal_strlit("7");
        }
        "7"
    } else if value == 8 {
        proof {
            reveal_strlit("8");
        }
        "8"
    } else {
        proof {
            reveal_strlit("9");
        }
        "9"
    }
}

/// Appends `number` in decimal to `text`.
fn append_decimal(text: &mut String, number: u64)
    ensures
        final(text)@ == old(text)@ + decimal(number as nat),
    decreases number,
{
    if number < 10 {
        text.append(digit_text(number));
    } else {
        append_decimal(text, number / 10);
        text.append(digit_text(number % 10));
        assert(final(text)@ =~= old(text)@ + decimal(number as nat));
    }
}

/// Generates names that differ by a counter.
#[derive(Debug)]
pub struct NameGenerator {
    prefix: String,
    index: u64,
}

impl NameGenerator {
    /// The prefix of the names generated.
    pub closed spec fn prefix(&self) -> Seq<char> {
        self.prefix@
    }

    /// How many names were generated.
    pub closed spec fn count(&self) -> nat {
        self.index as nat
    }

    /// The count of generated names fits in a `u64`.
    pub proof fn lemma_count_bound(&self)
        ensures
            self.count() <= u64::MAX,
    {
    }

    pub fn new(prefix: &str) -> (generator: Self)
        ensures
            generator.prefix() == prefix@,
            generator.count() == 0,
    {
        NameGenerator { prefix: String::from_str(prefix), index: 0 }
    }

    /// The next name: the prefix and how many names were generated before,
    /// in decimal.
    pub fn generate(&mut self) -> (name: String)
        requires
            old(self).count() < u64::MAX,
        ensures
            name@ == old(self).prefix() + decimal(old(self).count()),
            final(self).prefix() == old(self).prefix(),
            final(self).count() == old(self).count() + 1,
    {
        let mut name = self.prefix.clone();
        append_decimal(&mut name, self.index);
        self.index = self.index + 1;
        name
    }
}

} // verus!

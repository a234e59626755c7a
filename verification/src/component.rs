//! The atomic unit of a version: a number or an alphabetic identifier.

use core::cmp::Ordering;
use vstd::prelude::*;

verus! {

/// The mathematical value of a component: an unsigned magnitude or the
/// character sequence of an alphabetic identifier.
pub enum SpecComponent {
    Identifier(Seq<char>),
    Number(u64),
}

/// The characters that are hard delimiters for components.
/// This constant is public more as a matter of documentation than of utility.
pub const COMPONENT_SEPARATORS: &'static str = ".-_+:";

/// The characters that are hard delimiters between components.
pub open spec fn is_separator_char(c: char) -> bool {
    c == '.' || c == '-' || c == '_' || c == '+' || c == ':'
}

/// An ASCII decimal digit.
pub open spec fn is_digit_char(c: char) -> bool {
    '0' as u32 <= c as u32 && c as u32 <= '9' as u32
}

/// An ASCII alphabetic character.
pub open spec fn is_alpha_char(c: char) -> bool {
    ('a' as u32 <= c as u32 && c as u32 <= 'z' as u32) || ('A' as u32 <= c as u32 && c as u32
        <= 'Z' as u32)
}

/// Numeric value of a single decimal digit character.
pub open spec fn digit_of(c: char) -> nat
    recommends
        is_digit_char(c),
{
    (c as u32 - '0' as u32) as nat
}

/// A valid identifier is non-empty and purely alphabetic; every number is valid.
pub open spec fn valid_component(c: SpecComponent) -> bool {
    match c {
        SpecComponent::Identifier(s) => s.len() > 0 && (forall|i: int|
            0 <= i < s.len() ==> is_alpha_char(#[trigger] s[i])),
        SpecComponent::Number(_) => true,
    }
}

/// A component is an indivisible part of a version: a number, or an
/// alphabetic identifier. Produced by the scanner; never empty, and an
/// identifier never contains digits.
#[derive(Clone, PartialEq, Eq, PartialOrd, Ord, Hash, Debug)]
pub enum Component {
    Identifier(String),
    Number(u64),
}

impl View for Component {
    type V = SpecComponent;

    open spec fn view(&self) -> SpecComponent {
        match self {
            Component::Identifier(s) => SpecComponent::Identifier(s@),
            Component::Number(n) => SpecComponent::Number(*n),
        }
    }
}

/// The default component is the number zero, the implicit filler for a
/// missing trailing component.
impl Default for Component {
    fn default() -> (c: Self)
        ensures
            c@ == SpecComponent::Number(0u64),
    {
        Component::Number(0)
    }
}

/// Lexicographic comparison of character sequences, by code point:
/// negative, zero or positive as `s` sorts before, with or after `t`.
pub open spec fn lex_cmp(s: Seq<char>, t: Seq<char>) -> int
    decreases s.len(),
{
    if s.len() == 0 && t.len() == 0 {
        0
    } else if s.len() == 0 {
        -1
    } else if t.len() == 0 {
        1
    } else if (s[0] as u32) < (t[0] as u32) {
        -1
    } else if (t[0] as u32) < (s[0] as u32) {
        1
    } else {
        lex_cmp(s.drop_first(), t.drop_first())
    }
}

/// Position-wise comparison of two components: numbers by magnitude,
/// identifiers lexicographically, and an identifier sorts before any
/// number. The last rule is what keeps the ordering consistent with the
/// missing-component convention: a missing slot counts as the number zero,
/// and it must outrank any identifier.
pub open spec fn comp_cmp(x: SpecComponent, y: SpecComponent) -> int {
    match (x, y) {
        (SpecComponent::Identifier(s), SpecComponent::Identifier(t)) => lex_cmp(s, t),
        (SpecComponent::Identifier(_), SpecComponent::Number(_)) => -1,
        (SpecComponent::Number(_), SpecComponent::Identifier(_)) => 1,
        (SpecComponent::Number(m), SpecComponent::Number(n)) => if m < n {
            -1
        } else if n < m {
            1
        } else {
            0
        },
    }
}

/// The `Ordering` that stands for a signed comparison verdict.
pub open spec fn ord_of(c: int) -> Ordering {
    if c < 0 {
        Ordering::Less
    } else if c == 0 {
        Ordering::Equal
    } else {
        Ordering::Greater
    }
}

/// The character of a single decimal digit.
pub open spec fn digit_char(d: nat) -> char {
    if d == 0 {
        '0'
    } else if d == 1 {
        '1'
    } else if d == 2 {
        '2'
    } else if d == 3 {
        '3'
    } else if d == 4 {
        '4'
    } else if d == 5 {
        '5'
    } else if d == 6 {
        '6'
    } else if d == 7 {
        '7'
    } else if d == 8 {
        '8'
    } else {
        '9'
    }
}

/// The decimal digits of `n`, most significant first.
pub open spec fn dec_digits(n: nat) -> Seq<char>
    decreases n,
{
    if n < 10 {
        seq![digit_char(n)]
    } else {
        dec_digits(n / 10).push(digit_char(n % 10))
    }
}

/// The text of a component: decimal digits for a number, the identifier's
/// own characters otherwise.
pub open spec fn spec_render_comp(c: SpecComponent) -> Seq<char> {
    match c {
        SpecComponent::Number(n) => dec_digits(n as nat),
        SpecComponent::Identifier(s) => s,
    }
}

impl Component {
    /// Compare two components position-wise, following `comp_cmp`.
    pub fn compare(&self, other: &Component) -> (r: Ordering)
        ensures
            r == ord_of(comp_cmp(self@, other@)),
    {
        match (self, other) {
            (Component::Identifier(s), Component::Identifier(t)) => compare_chars(
                s.as_str(),
                t.as_str(),
            ),
            (Component::Identifier(_), Component::Number(_)) => Ordering::Less,
            (Component::Number(_), Component::Identifier(_)) => Ordering::Greater,
            (Component::Number(m), Component::Number(n)) => {
                if *m < *n {
                    Ordering::Less
                } else if *n < *m {
                    Ordering::Greater
                } else {
                    Ordering::Equal
                }
            },
        }
    }

    /// The text of this component.
    pub fn render(&self) -> (s: String)
        ensures
            s@ == spec_render_comp(self@),
    {
        match self {
            Component::Number(n) => render_number(*n),
            Component::Identifier(s) => s.clone(),
        }
    }
}

/// Lexicographic comparison of two strings, character by character.
fn compare_chars(s: &str, t: &str) -> (r: Ordering)
    ensures
        r == ord_of(lex_cmp(s@, t@)),
{
    let sl = s.unicode_len();
    let tl = t.unicode_len();
    let n = if sl <= tl {
        sl
    } else {
        tl
    };
    let mut i: usize = 0;
    proof {
        assert(s@.skip(0) =~= s@);
        assert(t@.skip(0) =~= t@);
    }
    while i < n
        invariant
            i <= n,
            sl == s@.len(),
            tl == t@.len(),
            n == if sl <= tl {
                sl
            } else {
                tl
            },
            lex_cmp(s@, t@) == lex_cmp(s@.skip(i as int), t@.skip(i as int)),
        decreases n - i,
    {
        let a = s.get_char(i) as u32;
        let b = t.get_char(i) as u32;
        if a < b {
            return Ordering::Less;
        }
        if b < a {
            return Ordering::Greater;
        }
        proof {
            assert(s@.skip(i as int).drop_first() =~= s@.skip(i + 1));
            assert(t@.skip(i as int).drop_first() =~= t@.skip(i + 1));
        }
        i += 1;
    }
    if sl == tl {
        Ordering::Equal
    } else if sl < tl {
        Ordering::Less
    } else {
        Ordering::Greater
    }
}

/// One decimal digit as text.
fn digit_str(d: u64) -> (s: &'static str)
    requires
        d < 10,
    ensures
        s@ == seq![digit_char(d as nat)],
{
    proof {
        reveal_strlit("0");
        reveal_strlit("1");
        reveal_strlit("2");
        reveal_strlit("3");
        reveal_strlit("4");
        reveal_strlit("5");
        reveal_strlit("6");
        reveal_strlit("7");
        reveal_strlit("8");
        reveal_strlit("9");
        assert("0"@ =~= seq!['0']);
        assert("1"@ =~= seq!['1']);
        assert("2"@ =~= seq!['2']);
        assert("3"@ =~= seq!['3']);
        assert("4"@ =~= seq!['4']);
        assert("5"@ =~= seq!['5']);
        assert("6"@ =~= seq!['6']);
        assert("7"@ =~= seq!['7']);
        assert("8"@ =~= seq!['8']);
        assert("9"@ =~= seq!['9']);
    }
    match d {
        0 => "0",
        1 => "1",
        2 => "2",
        3 => "3",
        4 => "4",
        5 => "5",
        6 => "6",
        7 => "7",
        8 => "8",
        _ => "9",
    }
}

/// The decimal text of a 64-bit number, built digit by digit.
fn render_number(n: u64) -> (s: String)
    ensures
        s@ == dec_digits(n as nat),
    decreases n,
{
    if n < 10 {
        digit_str(n).to_owned()
    } else {
        let mut s = render_number(n / 10);
        s.append(digit_str(n % 10));
        proof {
            assert(dec_digits((n / 10) as nat) + seq![digit_char((n % 10) as nat)] =~= dec_digits(
                (n / 10) as nat,
            ).push(digit_char((n % 10) as nat)));
            assert((n as nat) / 10 == (n / 10) as nat);
            assert((n as nat) % 10 == (n % 10) as nat);
        }
        s
    }
}

} // verus!

//! The component scanner: a stateful tokenizer that walks an input string
//! left to right and yields one component at a time.
//!
//! `spec_scan` is the grammar: it says, for every input, either which
//! component sequence the text denotes or at which remainder scanning fails.
//! `ComponentParser` is the executable scanner, proved to follow `spec_scan`
//! step by step.

use vstd::prelude::*;

use crate::component::Component;
use crate::component::SpecComponent;
use crate::component::digit_of;
use crate::component::is_alpha_char;
use crate::component::is_digit_char;
use crate::component::is_separator_char;
use crate::component::valid_component;

verus! {

/// Length of the maximal run of decimal digits at the front of `s`.
pub open spec fn digit_run_len(s: Seq<char>) -> int
    decreases s.len(),
{
    if s.len() == 0 || !is_digit_char(s[0]) {
        0
    } else {
        1 + digit_run_len(s.drop_first())
    }
}

/// Length of the maximal run of alphabetic characters at the front of `s`.
pub open spec fn alpha_run_len(s: Seq<char>) -> int
    decreases s.len(),
{
    if s.len() == 0 || !is_alpha_char(s[0]) {
        0
    } else {
        1 + alpha_run_len(s.drop_first())
    }
}

/// The numeric value of a digit string, most significant digit first.
pub open spec fn digits_val(s: Seq<char>) -> nat
    decreases s.len(),
{
    if s.len() == 0 {
        0
    } else {
        digits_val(s.drop_last()) * 10 + digit_of(s.last())
    }
}

/// A well-formed trailing paren group: at least the closing paren, which is
/// the last character of the input and the only close-paren in it.
pub open spec fn closed_paren_tail(t: Seq<char>) -> bool {
    t.len() >= 1 && t.last() == ')' && (forall|i: int| 0 <= i < t.len() - 1 ==> #[trigger] t[i]
        != ')')
}

/// The two-character opening `" ("` of a vendor suffix.
pub open spec fn paren_suffix_start(s: Seq<char>) -> bool {
    s.len() >= 2 && s[0] == ' ' && s[1] == '('
}

/// Prefix one component onto a scan outcome; an error passes through.
pub open spec fn scan_prepend(
    c: SpecComponent,
    r: Result<Seq<SpecComponent>, Seq<char>>,
) -> Result<Seq<SpecComponent>, Seq<char>> {
    match r {
        Ok(rest) => Ok(seq![c] + rest),
        Err(e) => Err(e),
    }
}

/// Prefix already-scanned components onto a scan outcome; an error passes
/// through.
pub open spec fn scan_concat(
    pre: Seq<SpecComponent>,
    r: Result<Seq<SpecComponent>, Seq<char>>,
) -> Result<Seq<SpecComponent>, Seq<char>> {
    match r {
        Ok(rest) => Ok(pre + rest),
        Err(e) => Err(e),
    }
}

/// The scanning grammar. Given the remaining input and whether the next
/// component would be the first, yields the components of the rest of the
/// input, or the remainder at which scanning fails.
///
/// Separators are consumed only between components, never before the first;
/// a `" ("` opening after the first component must be a well-formed trailing
/// vendor suffix, which is discarded.
pub open spec fn spec_scan(s: Seq<char>, first: bool) -> Result<Seq<SpecComponent>, Seq<char>>
    decreases s.len(), 1int,
{
    if s.len() == 0 {
        Ok(Seq::empty())
    } else if !first && is_separator_char(s[0]) {
        spec_scan_component(s.drop_first())
    } else if !first && paren_suffix_start(s) {
        if closed_paren_tail(s.skip(2)) {
            Ok(Seq::empty())
        } else {
            Err(s)
        }
    } else {
        spec_scan_component(s)
    }
}

/// One component matched at the front of `t`: a maximal digit run (whose
/// value must fit in 64 bits), else a maximal alphabetic run, else failure
/// reporting `t` itself.
pub open spec fn spec_scan_component(t: Seq<char>) -> Result<Seq<SpecComponent>, Seq<char>>
    decreases t.len(), 0int,
    via spec_scan_component_decreases
{
    let d = digit_run_len(t);
    let a = alpha_run_len(t);
    if d > 0 {
        if digits_val(t.take(d)) > u64::MAX {
            Err(t)
        } else {
            scan_prepend(
                SpecComponent::Number(digits_val(t.take(d)) as u64),
                spec_scan(t.skip(d), false),
            )
        }
    } else if a > 0 {
        scan_prepend(SpecComponent::Identifier(t.take(a)), spec_scan(t.skip(a), false))
    } else {
        Err(t)
    }
}

#[via_fn]
proof fn spec_scan_component_decreases(t: Seq<char>) {
    lemma_digit_run_len_bounds(t);
    lemma_alpha_run_len_bounds(t);
}

/// The digit run is within bounds, consists of digits, and is maximal.
pub proof fn lemma_digit_run_len_bounds(s: Seq<char>)
    ensures
        0 <= digit_run_len(s) <= s.len(),
        forall|j: int| 0 <= j < digit_run_len(s) ==> is_digit_char(#[trigger] s[j]),
        digit_run_len(s) < s.len() ==> !is_digit_char(s[digit_run_len(s)]),
    decreases s.len(),
{
    if s.len() == 0 || !is_digit_char(s[0]) {
    } else {
        lemma_digit_run_len_bounds(s.drop_first());
        assert forall|j: int| 0 <= j < digit_run_len(s) implies is_digit_char(#[trigger] s[j]) by {
            if j > 0 {
                assert(s.drop_first()[j - 1] == s[j]);
            }
        }
        if digit_run_len(s) < s.len() {
            assert(s.drop_first()[digit_run_len(s) - 1] == s[digit_run_len(s)]);
        }
    }
}

/// The alphabetic run is within bounds, alphabetic, and maximal.
pub proof fn lemma_alpha_run_len_bounds(s: Seq<char>)
    ensures
        0 <= alpha_run_len(s) <= s.len(),
        forall|j: int| 0 <= j < alpha_run_len(s) ==> is_alpha_char(#[trigger] s[j]),
        alpha_run_len(s) < s.len() ==> !is_alpha_char(s[alpha_run_len(s)]),
    decreases s.len(),
{
    if s.len() == 0 || !is_alpha_char(s[0]) {
    } else {
        lemma_alpha_run_len_bounds(s.drop_first());
        assert forall|j: int| 0 <= j < alpha_run_len(s) implies is_alpha_char(#[trigger] s[j]) by {
            if j > 0 {
                assert(s.drop_first()[j - 1] == s[j]);
            }
        }
        if alpha_run_len(s) < s.len() {
            assert(s.drop_first()[alpha_run_len(s) - 1] == s[alpha_run_len(s)]);
        }
    }
}

/// A prefix of digits followed by a non-digit (or the end) is the maximal run.
pub proof fn lemma_digit_run_len_is(s: Seq<char>, n: int)
    requires
        0 <= n <= s.len(),
        forall|j: int| 0 <= j < n ==> is_digit_char(#[trigger] s[j]),
        n == s.len() || !is_digit_char(s[n]),
    ensures
        digit_run_len(s) == n,
    decreases n,
{
    if n == 0 {
    } else {
        assert(is_digit_char(s[0]));
        assert forall|j: int| 0 <= j < n - 1 implies is_digit_char(#[trigger] s.drop_first()[j]) by {
            assert(s.drop_first()[j] == s[j + 1]);
        }
        if n - 1 < s.drop_first().len() {
            assert(s.drop_first()[n - 1] == s[n]);
        }
        lemma_digit_run_len_is(s.drop_first(), n - 1);
    }
}

/// A prefix of letters followed by a non-letter (or the end) is the maximal run.
pub proof fn lemma_alpha_run_len_is(s: Seq<char>, n: int)
    requires
        0 <= n <= s.len(),
        forall|j: int| 0 <= j < n ==> is_alpha_char(#[trigger] s[j]),
        n == s.len() || !is_alpha_char(s[n]),
    ensures
        alpha_run_len(s) == n,
    decreases n,
{
    if n == 0 {
    } else {
        assert(is_alpha_char(s[0]));
        assert forall|j: int| 0 <= j < n - 1 implies is_alpha_char(#[trigger] s.drop_first()[j]) by {
            assert(s.drop_first()[j] == s[j + 1]);
        }
        if n - 1 < s.drop_first().len() {
            assert(s.drop_first()[n - 1] == s[n]);
        }
        lemma_alpha_run_len_is(s.drop_first(), n - 1);
    }
}

/// Reading one more digit multiplies the value by ten and adds the digit.
pub proof fn lemma_digits_val_step(s: Seq<char>, j: int)
    requires
        0 <= j < s.len(),
    ensures
        digits_val(s.take(j + 1)) == digits_val(s.take(j)) * 10 + digit_of(s[j]),
{
    assert(s.take(j + 1).drop_last() =~= s.take(j));
    assert(s.take(j + 1).last() == s[j]);
}

/// The value of a digit string never shrinks as the string grows.
pub proof fn lemma_digits_val_monotone(s: Seq<char>, j: int)
    requires
        0 <= j <= s.len(),
    ensures
        digits_val(s.take(j)) <= digits_val(s),
    decreases s.len() - j,
{
    if j == s.len() {
        assert(s.take(j) =~= s);
    } else {
        lemma_digits_val_step(s, j);
        lemma_digits_val_monotone(s, j + 1);
    }
}

/// An error while parsing a version: carries the exact remaining unconsumed
/// input at the point of failure.
#[derive(Clone, Debug)]
pub struct ParseVersionError(String);

impl View for ParseVersionError {
    type V = Seq<char>;

    closed spec fn view(&self) -> Seq<char> {
        self.0@
    }
}

impl ParseVersionError {
    /// The unconsumed remainder of the input at which scanning failed.
    pub fn remainder(&self) -> (s: &str)
        ensures
            s@ == self@,
    {
        self.0.as_str()
    }

    /// A human-readable account of the failure, naming the remainder.
    pub fn message(&self) -> (s: String)
        ensures
            s@ == "invalid version: "@ + self@,
    {
        let mut s = String::new();
        s.append("invalid version: ");
        s.append(self.0.as_str());
        proof {
            assert(Seq::<char>::empty() + "invalid version: "@ =~= "invalid version: "@);
        }
        s
    }
}

/// A parser for components: yields the components of an input string one at
/// a time, each call consuming the text of one component.
pub struct ComponentParser<'a> {
    /// Flag to indicate whether we're parsing the first component.
    first: bool,
    /// The input yet to be parsed.
    input: &'a str,
}

impl<'a> ComponentParser<'a> {
    /// The input characters still to be consumed.
    pub closed spec fn remaining(&self) -> Seq<char> {
        self.input@
    }

    /// Whether the next component produced would be the first.
    pub closed spec fn at_start(&self) -> bool {
        self.first
    }

    /// A fresh parser positioned at the start of `input`.
    pub fn from(input: &'a str) -> (p: Self)
        ensures
            p.remaining() == input@,
            p.at_start(),
    {
        ComponentParser { first: true, input }
    }

    /// Try to parse a maximal digit run as a 64-bit integer. Fails, leaving
    /// the parser untouched, when no digit is present or the value overflows.
    pub fn parse_integer(&mut self) -> (r: Option<u64>)
        ensures
            final(self).at_start() == old(self).at_start(),
            ({
                let rem = old(self).remaining();
                let d = digit_run_len(rem);
                match r {
                    Some(v) => d > 0 && digits_val(rem.take(d)) <= u64::MAX && v as nat
                        == digits_val(rem.take(d)) && final(self).remaining() == rem.skip(d),
                    None => *final(self) == *old(self) && (d == 0 || digits_val(rem.take(d))
                        > u64::MAX),
                }
            }),
    {
        let d = run_end_digits(self.input);
        if d == 0 {
            return None;
        }
        let len = self.input.unicode_len();
        proof {
            lemma_digit_run_len_bounds(self.input@);
        }
        let ghost rem = self.input@;
        let mut val: u64 = 0;
        let mut j: usize = 0;
        while j < d
            invariant
                j <= d,
                rem == self.input@,
                *self == *old(self),
                d == digit_run_len(rem),
                0 < d <= len,
                len == rem.len(),
                val as nat == digits_val(rem.take(j as int)),
                forall|i2: int| 0 <= i2 < d ==> is_digit_char(#[trigger] rem[i2]),
            decreases d - j,
        {
            let c = self.input.get_char(j);
            let dig: u32 = c as u32 - '0' as u32;
            proof {
                lemma_digits_val_step(rem, j as int);
            }
            let stepped = match val.checked_mul(10) {
                Some(m) => m.checked_add(dig as u64),
                None => None,
            };
            match stepped {
                Some(v2) => {
                    val = v2;
                },
                None => {
                    proof {
                        assert(rem.take(d as int).take(j + 1) =~= rem.take(j + 1));
                        lemma_digits_val_monotone(rem.take(d as int), j + 1);
                    }
                    return None;
                },
            }
            j += 1;
        }
        self.input = self.input.substring_char(d, len);
        proof {
            assert(self.input@ =~= rem.skip(d as int));
        }
        Some(val)
    }

    /// Try to parse a number component: a maximal digit run whose value fits.
    pub fn parse_number(&mut self) -> (r: Option<Component>)
        ensures
            final(self).at_start() == old(self).at_start(),
            ({
                let rem = old(self).remaining();
                let d = digit_run_len(rem);
                match r {
                    Some(c) => d > 0 && digits_val(rem.take(d)) <= u64::MAX
                        && c@ == SpecComponent::Number(digits_val(rem.take(d)) as u64)
                        && final(self).remaining() == rem.skip(d),
                    None => *final(self) == *old(self) && (d == 0 || digits_val(rem.take(d))
                        > u64::MAX),
                }
            }),
    {
        match self.parse_integer() {
            Some(v) => Some(Component::Number(v)),
            None => None,
        }
    }

    /// Try to parse an identifier component: a maximal alphabetic run.
    pub fn parse_identifier(&mut self) -> (r: Option<Component>)
        ensures
            final(self).at_start() == old(self).at_start(),
            ({
                let rem = old(self).remaining();
                let a = alpha_run_len(rem);
                match r {
                    Some(c) => a > 0 && c@ == SpecComponent::Identifier(rem.take(a))
                        && valid_component(c@) && final(self).remaining() == rem.skip(a),
                    None => *final(self) == *old(self) && a == 0,
                }
            }),
    {
        let a = run_end_alpha(self.input);
        if a == 0 {
            return None;
        }
        let len = self.input.unicode_len();
        proof {
            lemma_alpha_run_len_bounds(self.input@);
        }
        let ident = self.input.substring_char(0, a).to_owned();
        let ghost rem = self.input@;
        self.input = self.input.substring_char(a, len);
        proof {
            assert(ident@ =~= rem.take(a as int));
            assert(self.input@ =~= rem.skip(a as int));
        }
        Some(Component::Identifier(ident))
    }

    /// An error carrying the current remaining input.
    pub fn error(&self) -> (e: ParseVersionError)
        ensures
            e@ == self.remaining(),
    {
        ParseVersionError(self.input.to_owned())
    }

    /// Produce the next component, the end of the input, or a failure.
    ///
    /// On a component, the grammar's verdict on the old remainder is that
    /// component prefixed onto its verdict on the new remainder; on the end
    /// or a failure, the grammar's verdict is final.
    pub fn next(&mut self) -> (r: Option<Result<Component, ParseVersionError>>)
        ensures
            match r {
                None => spec_scan(old(self).remaining(), old(self).at_start()) == Ok::<
                    Seq<SpecComponent>,
                    Seq<char>,
                >(Seq::empty()) && final(self).remaining().len() == 0,
                Some(Ok(c)) => spec_scan(old(self).remaining(), old(self).at_start())
                    == scan_prepend(c@, spec_scan(final(self).remaining(), false))
                    && !final(self).at_start()
                    && final(self).remaining().len() < old(self).remaining().len()
                    && valid_component(c@),
                Some(Err(e)) => spec_scan(old(self).remaining(), old(self).at_start()) == Err::<
                    Seq<SpecComponent>,
                    Seq<char>,
                >(e@),
            },
    {
        if self.input.is_empty() {
            return None;
        }
        if self.first {
            self.first = false;
        } else {
            let len = self.input.unicode_len();
            let c0 = self.input.get_char(0);
            if is_separator(c0) {
                self.input = self.input.substring_char(1, len);
                proof {
                    assert(self.input@ =~= old(self).remaining().drop_first());
                }
            } else if c0 == ' ' && len >= 2 && self.input.get_char(1) == '(' {
                if paren_tail_closed(self.input) {
                    self.input = "";
                    proof {
                        reveal_strlit("");
                    }
                    return None;
                } else {
                    return Some(Err(self.error()));
                }
            }
        }
        let ghost mid = *self;
        proof {
            assert(spec_scan(old(self).remaining(), old(self).at_start())
                == spec_scan_component(mid.remaining()));
            lemma_digit_run_len_bounds(mid.remaining());
            lemma_alpha_run_len_bounds(mid.remaining());
        }
        match self.parse_number() {
            Some(c) => {
                return Some(Ok(c));
            },
            None => {},
        }
        match self.parse_identifier() {
            Some(c) => {
                return Some(Ok(c));
            },
            None => {},
        }
        Some(Err(self.error()))
    }
}

/// Separator test for one character.
fn is_separator(c: char) -> (b: bool)
    ensures
        b == is_separator_char(c),
{
    c == '.' || c == '-' || c == '_' || c == '+' || c == ':'
}

/// Digit test for one character.
fn is_digit(c: char) -> (b: bool)
    ensures
        b == is_digit_char(c),
{
    let u = c as u32;
    '0' as u32 <= u && u <= '9' as u32
}

/// Alphabetic test for one character.
fn is_alpha(c: char) -> (b: bool)
    ensures
        b == is_alpha_char(c),
{
    let u = c as u32;
    ('a' as u32 <= u && u <= 'z' as u32) || ('A' as u32 <= u && u <= 'Z' as u32)
}

/// End of the maximal digit run at the front of `s`.
fn run_end_digits(s: &str) -> (n: usize)
    ensures
        n == digit_run_len(s@),
{
    let len = s.unicode_len();
    let mut i: usize = 0;
    while i < len
        invariant
            i <= len,
            len == s@.len(),
            forall|j: int| 0 <= j < i ==> is_digit_char(#[trigger] s@[j]),
        decreases len - i,
    {
        if !is_digit(s.get_char(i)) {
            proof {
                lemma_digit_run_len_is(s@, i as int);
            }
            return i;
        }
        i += 1;
    }
    proof {
        lemma_digit_run_len_is(s@, i as int);
    }
    i
}

/// End of the maximal alphabetic run at the front of `s`.
fn run_end_alpha(s: &str) -> (n: usize)
    ensures
        n == alpha_run_len(s@),
{
    let len = s.unicode_len();
    let mut i: usize = 0;
    while i < len
        invariant
            i <= len,
            len == s@.len(),
            forall|j: int| 0 <= j < i ==> is_alpha_char(#[trigger] s@[j]),
        decreases len - i,
    {
        if !is_alpha(s.get_char(i)) {
            proof {
                lemma_alpha_run_len_is(s@, i as int);
            }
            return i;
        }
        i += 1;
    }
    proof {
        lemma_alpha_run_len_is(s@, i as int);
    }
    i
}

/// Whether `s`, which opens a vendor suffix with `" ("`, closes it properly:
/// the rest holds exactly one `)`, as its final character.
fn paren_tail_closed(s: &str) -> (b: bool)
    requires
        s@.len() >= 2,
    ensures
        b == closed_paren_tail(s@.skip(2)),
{
    let len = s.unicode_len();
    if len < 3 {
        return false;
    }
    if s.get_char(len - 1) != ')' {
        return false;
    }
    let mut i: usize = 2;
    while i < len - 1
        invariant
            2 <= i <= len - 1,
            3 <= len == s@.len(),
            s@[len - 1] == ')',
            forall|j: int| 2 <= j < i ==> #[trigger] s@[j] != ')',
        decreases len - i,
    {
        if s.get_char(i) == ')' {
            assert(!closed_paren_tail(s@.skip(2))) by {
                assert(s@.skip(2)[i - 2] == s@[i as int]);
            }
            return false;
        }
        i += 1;
    }
    assert(closed_paren_tail(s@.skip(2))) by {
        assert(s@.skip(2).last() == s@[len - 1]);
        assert forall|k: int| 0 <= k < s@.skip(2).len() - 1 implies #[trigger] s@.skip(2)[k]
            != ')' by {
            assert(s@.skip(2)[k] == s@[k + 2]);
        }
    }
    true
}

} // verus!

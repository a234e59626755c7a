//! Laws of the version ordering and of rendering.
//!
//! The ordering is reflexive, antisymmetric and transitive — a total
//! order — a trailing zero component never changes any comparison, a
//! trailing nonzero component always does, and parsing the rendered text
//! of a version restores its components exactly.

use vstd::prelude::*;

use crate::component::SpecComponent;
use crate::component::comp_cmp;
use crate::component::dec_digits;
use crate::component::digit_char;
use crate::component::digit_of;
use crate::component::is_alpha_char;
use crate::component::is_digit_char;
use crate::component::lex_cmp;
use crate::component::spec_render_comp;
use crate::component::valid_component;
use crate::scanner::digit_run_len;
use crate::scanner::digits_val;
use crate::scanner::lemma_alpha_run_len_is;
use crate::scanner::lemma_digit_run_len_is;
use crate::scanner::spec_scan;
use crate::scanner::spec_scan_component;
use crate::version::comp_at;
use crate::version::cmp_len;
use crate::version::spec_cmp;
use crate::version::spec_cmp_from;
use crate::version::spec_render;
use crate::version::spec_render_tail;
use crate::version::valid_components;

verus! {

proof fn lemma_lex_cmp_refl(s: Seq<char>)
    ensures
        lex_cmp(s, s) == 0,
    decreases s.len(),
{
    if s.len() > 0 {
        lemma_lex_cmp_refl(s.drop_first());
    }
}

proof fn lemma_lex_cmp_antisym(s: Seq<char>, t: Seq<char>)
    ensures
        lex_cmp(s, t) == -lex_cmp(t, s),
    decreases s.len(),
{
    if s.len() > 0 && t.len() > 0 && s[0] as u32 == t[0] as u32 {
        lemma_lex_cmp_antisym(s.drop_first(), t.drop_first());
    }
}

proof fn lemma_lex_cmp_trans(s: Seq<char>, t: Seq<char>, u: Seq<char>)
    requires
        lex_cmp(s, t) <= 0,
        lex_cmp(t, u) <= 0,
    ensures
        lex_cmp(s, u) <= 0,
        lex_cmp(s, t) < 0 || lex_cmp(t, u) < 0 ==> lex_cmp(s, u) < 0,
    decreases s.len(),
{
    if s.len() > 0 && t.len() > 0 && u.len() > 0 && s[0] as u32 == t[0] as u32 && t[0] as u32 == u[0] as u32 {
        lemma_lex_cmp_trans(s.drop_first(), t.drop_first(), u.drop_first());
    }
}

proof fn lemma_comp_cmp_refl(x: SpecComponent)
    ensures
        comp_cmp(x, x) == 0,
{
    match x {
        SpecComponent::Identifier(s) => lemma_lex_cmp_refl(s),
        SpecComponent::Number(_) => {},
    }
}

proof fn lemma_comp_cmp_antisym(x: SpecComponent, y: SpecComponent)
    ensures
        comp_cmp(x, y) == -comp_cmp(y, x),
{
    match (x, y) {
        (SpecComponent::Identifier(s), SpecComponent::Identifier(t)) => lemma_lex_cmp_antisym(
            s,
            t,
        ),
        _ => {},
    }
}

proof fn lemma_comp_cmp_trans(x: SpecComponent, y: SpecComponent, z: SpecComponent)
    requires
        comp_cmp(x, y) <= 0,
        comp_cmp(y, z) <= 0,
    ensures
        comp_cmp(x, z) <= 0,
        comp_cmp(x, y) < 0 || comp_cmp(y, z) < 0 ==> comp_cmp(x, z) < 0,
{
    match (x, y, z) {
        (
            SpecComponent::Identifier(s),
            SpecComponent::Identifier(t),
            SpecComponent::Identifier(u),
        ) => lemma_lex_cmp_trans(s, t, u),
        _ => {},
    }
}

/// Every version compares equal to itself.
pub proof fn lemma_cmp_reflexive(a: Seq<SpecComponent>)
    ensures
        spec_cmp(a, a) == 0,
{
    lemma_cmp_from_refl(a, 0);
}

proof fn lemma_cmp_from_refl(a: Seq<SpecComponent>, i: int)
    requires
        0 <= i,
    ensures
        spec_cmp_from(a, a, i) == 0,
    decreases a.len() - i,
{
    if i < a.len() {
        lemma_comp_cmp_refl(comp_at(a, i));
        lemma_cmp_from_refl(a, i + 1);
    }
}

/// Comparing in the opposite direction negates the result: `a` is earlier
/// than `b` if and only if `b` is later than `a`, and of earlier, equal
/// and later only one ever holds.
pub proof fn lemma_cmp_antisymmetric(a: Seq<SpecComponent>, b: Seq<SpecComponent>)
    ensures
        spec_cmp(a, b) == -spec_cmp(b, a),
{
    lemma_cmp_from_antisym(a, b, 0);
}

proof fn lemma_cmp_from_antisym(a: Seq<SpecComponent>, b: Seq<SpecComponent>, i: int)
    requires
        0 <= i,
    ensures
        spec_cmp_from(a, b, i) == -spec_cmp_from(b, a, i),
    decreases cmp_len(a, b) - i,
{
    if i < a.len() || i < b.len() {
        lemma_comp_cmp_antisym(comp_at(a, i), comp_at(b, i));
        lemma_cmp_from_antisym(a, b, i + 1);
    }
}

spec fn cmp_len3(a: Seq<SpecComponent>, b: Seq<SpecComponent>, c: Seq<SpecComponent>) -> int {
    if a.len() >= b.len() && a.len() >= c.len() {
        a.len() as int
    } else if b.len() >= c.len() {
        b.len() as int
    } else {
        c.len() as int
    }
}

/// The ordering is transitive, and strictly so: with antisymmetry and
/// reflexivity, versions form a total order.
pub proof fn lemma_cmp_transitive(
    a: Seq<SpecComponent>,
    b: Seq<SpecComponent>,
    c: Seq<SpecComponent>,
)
    requires
        spec_cmp(a, b) <= 0,
        spec_cmp(b, c) <= 0,
    ensures
        spec_cmp(a, c) <= 0,
        spec_cmp(a, b) < 0 || spec_cmp(b, c) < 0 ==> spec_cmp(a, c) < 0,
{
    lemma_cmp_from_trans(a, b, c, 0);
}

proof fn lemma_cmp_from_trans(
    a: Seq<SpecComponent>,
    b: Seq<SpecComponent>,
    c: Seq<SpecComponent>,
    i: int,
)
    requires
        0 <= i,
        spec_cmp_from(a, b, i) <= 0,
        spec_cmp_from(b, c, i) <= 0,
    ensures
        spec_cmp_from(a, c, i) <= 0,
        spec_cmp_from(a, b, i) < 0 || spec_cmp_from(b, c, i) < 0 ==> spec_cmp_from(a, c, i) < 0,
    decreases cmp_len3(a, b, c) - i,
{
    if i >= a.len() && i >= b.len() && i >= c.len() {
    } else {
        let x = comp_at(a, i);
        let y = comp_at(b, i);
        let z = comp_at(c, i);
        lemma_comp_cmp_trans(x, y, z);
        if comp_cmp(x, y) == 0 && comp_cmp(y, z) == 0 {
            lemma_comp_cmp_antisym(x, y);
            lemma_comp_cmp_antisym(y, z);
            lemma_comp_cmp_trans(z, y, x);
            lemma_comp_cmp_antisym(x, z);
            lemma_cmp_from_trans(a, b, c, i + 1);
        }
    }
}

/// Appending a zero component to either side changes no comparison.
pub proof fn lemma_trailing_zero_irrelevant(a: Seq<SpecComponent>, b: Seq<SpecComponent>)
    ensures
        spec_cmp(a.push(SpecComponent::Number(0u64)), b) == spec_cmp(a, b),
        spec_cmp(b, a.push(SpecComponent::Number(0u64))) == spec_cmp(b, a),
{
    lemma_cmp_from_push_zero(a, b, 0);
    lemma_cmp_antisymmetric(a.push(SpecComponent::Number(0u64)), b);
    lemma_cmp_antisymmetric(a, b);
}

proof fn lemma_cmp_from_push_zero(a: Seq<SpecComponent>, b: Seq<SpecComponent>, i: int)
    requires
        0 <= i,
    ensures
        spec_cmp_from(a.push(SpecComponent::Number(0u64)), b, i) == spec_cmp_from(a, b, i),
    decreases cmp_len(a.push(SpecComponent::Number(0u64)), b) - i,
{
    let ap = a.push(SpecComponent::Number(0u64));
    if i >= ap.len() && i >= b.len() {
    } else {
        assert(comp_at(ap, i) == comp_at(a, i));
        lemma_cmp_from_push_zero(a, b, i + 1);
    }
}

/// A trailing component decides against its own absence exactly as it
/// compares against zero: a trailing zero leaves the version equal, a
/// trailing positive number makes it later, and a trailing identifier
/// makes it earlier — the identifier loses to the absent slot.
pub proof fn lemma_trailing_component_decides(a: Seq<SpecComponent>, c: SpecComponent)
    ensures
        spec_cmp(a.push(c), a) == comp_cmp(c, SpecComponent::Number(0u64)),
{
    lemma_cmp_from_push_self(a, c, 0);
}

proof fn lemma_cmp_from_push_self(a: Seq<SpecComponent>, c: SpecComponent, i: int)
    requires
        0 <= i <= a.len(),
    ensures
        spec_cmp_from(a.push(c), a, i) == comp_cmp(c, SpecComponent::Number(0u64)),
    decreases a.len() - i,
{
    if i < a.len() {
        assert(comp_at(a.push(c), i) == comp_at(a, i));
        lemma_comp_cmp_refl(comp_at(a, i));
        lemma_cmp_from_push_self(a, c, i + 1);
    } else {
        assert(comp_at(a.push(c), i) == c);
        assert(comp_at(a, i) == SpecComponent::Number(0u64));
        assert(spec_cmp_from(a.push(c), a, i + 1) == 0);
    }
}

proof fn lemma_digit_char_val(d: nat)
    requires
        d < 10,
    ensures
        is_digit_char(digit_char(d)),
        digit_of(digit_char(d)) == d,
{
}

proof fn lemma_dec_digits_wf(n: nat)
    ensures
        dec_digits(n).len() >= 1,
        forall|j: int| 0 <= j < dec_digits(n).len() ==> is_digit_char(#[trigger] dec_digits(n)[j]),
    decreases n,
{
    if n < 10 {
        lemma_digit_char_val(n);
    } else {
        lemma_dec_digits_wf(n / 10);
        lemma_digit_char_val(n % 10);
        assert forall|j: int| 0 <= j < dec_digits(n).len() implies is_digit_char(
            #[trigger] dec_digits(n)[j],
        ) by {
            if j < dec_digits(n / 10).len() {
                assert(dec_digits(n)[j] == dec_digits(n / 10)[j]);
            } else {
                assert(dec_digits(n)[j] == digit_char(n % 10));
            }
        }
    }
}

proof fn lemma_dec_digits_val(n: nat)
    ensures
        digits_val(dec_digits(n)) == n,
    decreases n,
{
    if n < 10 {
        lemma_digit_char_val(n);
        assert(digits_val(Seq::<char>::empty()) == 0);
        assert(dec_digits(n).drop_last() =~= Seq::<char>::empty());
        assert(dec_digits(n).last() == digit_char(n));
    } else {
        lemma_dec_digits_val(n / 10);
        lemma_digit_char_val(n % 10);
        assert(dec_digits(n).drop_last() =~= dec_digits(n / 10));
        assert(dec_digits(n).last() == digit_char(n % 10));
    }
}

/// Parsing the rendered text of a version yields exactly its components:
/// rendering is lossless up to the input's own separators and vendor suffix.
pub proof fn lemma_render_parse_round_trip(cs: Seq<SpecComponent>)
    requires
        valid_components(cs),
    ensures
        spec_scan(spec_render(cs), true) == Ok::<Seq<SpecComponent>, Seq<char>>(cs),
{
    if cs.len() == 0 {
        assert(cs =~= Seq::<SpecComponent>::empty());
    } else {
        lemma_scan_render_front(cs);
        let s = spec_render(cs);
        assert(s.len() > 0) by {
            lemma_render_comp_front(cs[0]);
        }
    }
}

/// The first character of a component's text is a digit or a letter, so
/// the text is non-empty and the scanner starts a component there.
proof fn lemma_render_comp_front(c: SpecComponent)
    requires
        valid_component(c),
    ensures
        spec_render_comp(c).len() > 0,
        is_digit_char(spec_render_comp(c)[0]) || is_alpha_char(spec_render_comp(c)[0]),
{
    match c {
        SpecComponent::Number(n) => {
            lemma_dec_digits_wf(n as nat);
        },
        SpecComponent::Identifier(s) => {},
    }
}

/// Scanning the dotted tail text (a dot before each component) yields
/// exactly those components.
proof fn lemma_scan_render_tail(cs: Seq<SpecComponent>)
    requires
        valid_components(cs),
    ensures
        spec_scan(spec_render_tail(cs), false) == Ok::<Seq<SpecComponent>, Seq<char>>(cs),
    decreases cs.len(), 1int,
{
    if cs.len() == 0 {
        assert(cs =~= Seq::<SpecComponent>::empty());
    } else {
        let s = spec_render_tail(cs);
        let t = spec_render_comp(cs[0]) + spec_render_tail(cs.drop_first());
        assert(s[0] == '.');
        assert(s.drop_first() =~= t);
        lemma_scan_render_front(cs);
    }
}

/// Scanning a component's text followed by the dotted tail of the rest
/// yields the whole sequence.
proof fn lemma_scan_render_front(cs: Seq<SpecComponent>)
    requires
        valid_components(cs),
        cs.len() > 0,
    ensures
        spec_scan_component(spec_render_comp(cs[0]) + spec_render_tail(cs.drop_first())) == Ok::<
            Seq<SpecComponent>,
            Seq<char>,
        >(cs),
    decreases cs.len(), 0int,
{
    let rest = cs.drop_first();
    let head = spec_render_comp(cs[0]);
    let tail = spec_render_tail(rest);
    let t = head + tail;
    assert(valid_component(cs[0]));
    assert(valid_components(rest)) by {
        assert(forall|i: int| 0 <= i < rest.len() ==> rest[i] == cs[i + 1]);
    }
    if rest.len() > 0 {
        assert(tail[0] == '.');
        assert(!is_digit_char('.'));
        assert(!is_alpha_char('.'));
    }
    lemma_scan_render_tail(rest);
    match cs[0] {
        SpecComponent::Number(n) => {
            lemma_dec_digits_wf(n as nat);
            lemma_dec_digits_val(n as nat);
            let d = head.len() as int;
            assert forall|j: int| 0 <= j < d implies is_digit_char(#[trigger] t[j]) by {
                assert(t[j] == head[j]);
            }
            if d < t.len() {
                assert(t[d] == tail[0]);
            }
            lemma_digit_run_len_is(t, d);
            assert(t.take(d) =~= head);
            assert(t.skip(d) =~= tail);
            assert(digits_val(t.take(d)) == n as nat);
            assert(seq![cs[0]] + rest =~= cs);
        },
        SpecComponent::Identifier(ident) => {
            let a = head.len() as int;
            assert(head == ident);
            assert forall|j: int| 0 <= j < a implies is_alpha_char(#[trigger] t[j]) by {
                assert(t[j] == head[j]);
            }
            if a < t.len() {
                assert(t[a] == tail[0]);
            }
            lemma_alpha_run_len_is(t, a);
            assert(t[0] == head[0]);
            assert(is_alpha_char(t[0]));
            assert(digit_run_len(t) == 0);
            assert(t.take(a) =~= head);
            assert(t.skip(a) =~= tail);
            assert(seq![cs[0]] + rest =~= cs);
        },
    }
}

} // verus!

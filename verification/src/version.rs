//! Versions: ordered sequences of components, compared component by
//! component with a missing trailing component counting as zero.

use core::cmp::Ordering;
use vstd::prelude::*;

use crate::component::Component;
use crate::component::SpecComponent;
use crate::component::comp_cmp;
use crate::component::ord_of;
use crate::component::spec_render_comp;
use crate::component::valid_component;
use crate::scanner::ComponentParser;
use crate::scanner::ParseVersionError;
use crate::scanner::scan_concat;
use crate::scanner::spec_scan;

verus! {

/// The component at position `i`, a missing slot counting as the number
/// zero ("phantom trailing zero").
pub open spec fn comp_at(cs: Seq<SpecComponent>, i: int) -> SpecComponent {
    if 0 <= i < cs.len() {
        cs[i]
    } else {
        SpecComponent::Number(0u64)
    }
}

/// The longer of the two sequences' lengths: past it, both sides read as
/// zeros and compare equal.
pub open spec fn cmp_len(a: Seq<SpecComponent>, b: Seq<SpecComponent>) -> int {
    if a.len() >= b.len() {
        a.len() as int
    } else {
        b.len() as int
    }
}

/// The version ordering from position `i` on: the first position where the
/// components (with missing slots read as zero) differ decides.
pub open spec fn spec_cmp_from(a: Seq<SpecComponent>, b: Seq<SpecComponent>, i: int) -> int
    decreases cmp_len(a, b) - i,
{
    if i >= a.len() && i >= b.len() {
        0
    } else {
        let c = comp_cmp(comp_at(a, i), comp_at(b, i));
        if c != 0 {
            c
        } else {
            spec_cmp_from(a, b, i + 1)
        }
    }
}

/// The version ordering: negative, zero or positive as `a` is an earlier,
/// the same, or a later version than `b`. Walking both sequences together,
/// a missing trailing component reads as the number zero; since an
/// identifier sorts before any number, a version without a trailing
/// identifier outranks one with it, while a trailing positive number
/// outranks its absence.
pub open spec fn spec_cmp(a: Seq<SpecComponent>, b: Seq<SpecComponent>) -> int {
    spec_cmp_from(a, b, 0)
}

/// Version equality: the ordering finds no difference. Not structural
/// equality of the sequences — trailing zeros are immaterial.
pub open spec fn spec_version_eq(a: Seq<SpecComponent>, b: Seq<SpecComponent>) -> bool {
    spec_cmp(a, b) == 0
}

/// Every component of the sequence is valid.
pub open spec fn valid_components(cs: Seq<SpecComponent>) -> bool {
    forall|i: int| 0 <= i < cs.len() ==> valid_component(#[trigger] cs[i])
}

/// The canonical dotted text after the first component: a `.` before each
/// further component.
pub open spec fn spec_render_tail(cs: Seq<SpecComponent>) -> Seq<char>
    decreases cs.len(),
{
    if cs.len() == 0 {
        Seq::empty()
    } else {
        seq!['.'] + spec_render_comp(cs[0]) + spec_render_tail(cs.drop_first())
    }
}

/// The canonical dotted text of a component sequence.
pub open spec fn spec_render(cs: Seq<SpecComponent>) -> Seq<char> {
    if cs.len() == 0 {
        Seq::empty()
    } else {
        spec_render_comp(cs[0]) + spec_render_tail(cs.drop_first())
    }
}

/// A version: a sequence of components, constructed only by parsing a
/// complete input string, and immutable afterwards. Versions provide a
/// total ordering.
#[derive(Clone, Debug)]
pub struct Version(Vec<Component>);

impl View for Version {
    type V = Seq<SpecComponent>;

    closed spec fn view(&self) -> Seq<SpecComponent> {
        self.0@.map_values(|c: Component| c@)
    }
}

impl Version {
    /// Parse a version from text: succeeds exactly when the scanner fully
    /// consumes the input, and otherwise hands back the scanner's error
    /// with the unconsumed remainder.
    pub fn from_str(input: &str) -> (r: Result<Version, ParseVersionError>)
        ensures
            match r {
                Ok(v) => spec_scan(input@, true) == Ok::<Seq<SpecComponent>, Seq<char>>(v@)
                    && valid_components(v@),
                Err(e) => spec_scan(input@, true) == Err::<Seq<SpecComponent>, Seq<char>>(e@),
            },
    {
        let mut parser = ComponentParser::from(input);
        let mut components: Vec<Component> = Vec::new();
        proof {
            assert(components@.map_values(|c: Component| c@) + spec_scan(
                input@,
                true,
            )->Ok_0 =~= spec_scan(input@, true)->Ok_0);
        }
        loop
            invariant
                valid_components(components@.map_values(|c: Component| c@)),
                spec_scan(input@, true) == scan_concat(
                    components@.map_values(|c: Component| c@),
                    spec_scan(parser.remaining(), parser.at_start()),
                ),
            decreases parser.remaining().len(),
        {
            let ghost acc = components@.map_values(|c: Component| c@);
            match parser.next() {
                None => {
                    proof {
                        assert(acc + Seq::<SpecComponent>::empty() =~= acc);
                        assert(components@.map_values(|c: Component| c@) =~= Version(
                            components,
                        )@);
                    }
                    return Ok(Version(components));
                },
                Some(Ok(c)) => {
                    components.push(c);
                    proof {
                        let step = spec_scan(parser.remaining(), false);
                        assert(components@.map_values(|c2: Component| c2@) =~= acc.push(c@));
                        if step is Ok {
                            assert(acc + (seq![c@] + step->Ok_0) =~= acc.push(c@) + step->Ok_0);
                        }
                    }
                },
                Some(Err(e)) => {
                    return Err(e);
                },
            }
        }
    }

    /// Compare two versions following `spec_cmp`: walk both component
    /// sequences together, reading a missing slot as the number zero, and
    /// let the first difference decide.
    pub fn cmp(&self, other: &Version) -> (r: Ordering)
        ensures
            r == ord_of(spec_cmp(self@, other@)),
    {
        let a_len = self.0.len();
        let b_len = other.0.len();
        let n = if a_len >= b_len {
            a_len
        } else {
            b_len
        };
        let zero = Component::Number(0);
        let mut i: usize = 0;
        while i < n
            invariant
                i <= n,
                a_len == self.0.len(),
                b_len == other.0.len(),
                n == cmp_len(self@, other@),
                zero@ == SpecComponent::Number(0u64),
                spec_cmp(self@, other@) == spec_cmp_from(self@, other@, i as int),
            decreases n - i,
        {
            let ca = if i < a_len {
                &self.0[i]
            } else {
                &zero
            };
            let cb = if i < b_len {
                &other.0[i]
            } else {
                &zero
            };
            match ca.compare(cb) {
                Ordering::Equal => {
                    i += 1;
                },
                o => {
                    return o;
                },
            }
        }
        Ordering::Equal
    }

    /// The canonical dotted text of this version: components joined by `.`,
    /// numbers in decimal, identifiers verbatim. The input's own separators
    /// and any vendor suffix are not preserved.
    pub fn render(&self) -> (s: String)
        ensures
            s@ == spec_render(self@),
    {
        let mut out = String::new();
        let len = self.0.len();
        let mut i: usize = 0;
        proof {
            assert(self@.take(0) =~= Seq::<SpecComponent>::empty());
        }
        while i < len
            invariant
                i <= len,
                len == self.0.len(),
                out@ == spec_render(self@.take(i as int)),
            decreases len - i,
        {
            proof {
                reveal_strlit(".");
                assert("."@ =~= seq!['.']);
                assert(self@.take(i + 1) =~= self@.take(i as int).push(self@[i as int]));
                lemma_render_push(self@.take(i as int), self@[i as int]);
            }
            if i > 0 {
                out.append(".");
            }
            let piece = self.0[i].render();
            out.append(piece.as_str());
            i += 1;
        }
        proof {
            assert(self@.take(len as int) =~= self@);
        }
        out
    }
}

/// Appending a component appends a dot (after a first component) and the
/// component's text.
proof fn lemma_render_tail_push(xs: Seq<SpecComponent>, x: SpecComponent)
    ensures
        spec_render_tail(xs.push(x)) == spec_render_tail(xs) + seq!['.'] + spec_render_comp(x),
    decreases xs.len(),
{
    if xs.len() == 0 {
        assert(xs.push(x)[0] == x);
        assert(xs.push(x).drop_first() =~= Seq::<SpecComponent>::empty());
        assert(spec_render_tail(xs.push(x)) == seq!['.'] + spec_render_comp(x)
            + spec_render_tail(Seq::<SpecComponent>::empty()));
        assert(seq!['.'] + spec_render_comp(x) + Seq::<char>::empty() =~= Seq::<char>::empty()
            + seq!['.'] + spec_render_comp(x));
    } else {
        lemma_render_tail_push(xs.drop_first(), x);
        assert(xs.push(x)[0] == xs[0]);
        assert(xs.push(x).drop_first() =~= xs.drop_first().push(x));
        assert(spec_render_tail(xs.push(x)) == seq!['.'] + spec_render_comp(xs[0])
            + spec_render_tail(xs.drop_first().push(x)));
        assert(seq!['.'] + spec_render_comp(xs[0]) + (spec_render_tail(xs.drop_first())
            + seq!['.'] + spec_render_comp(x)) =~= (seq!['.'] + spec_render_comp(xs[0])
            + spec_render_tail(xs.drop_first())) + seq!['.'] + spec_render_comp(x));
    }
}

/// The dotted text grows at the right as components are appended.
proof fn lemma_render_push(xs: Seq<SpecComponent>, x: SpecComponent)
    ensures
        spec_render(xs.push(x)) == if xs.len() == 0 {
            spec_render_comp(x)
        } else {
            spec_render(xs) + seq!['.'] + spec_render_comp(x)
        },
{
    if xs.len() == 0 {
        assert(xs.push(x).drop_first() =~= Seq::<SpecComponent>::empty());
        assert(spec_render_comp(x) + Seq::<char>::empty() =~= spec_render_comp(x));
    } else {
        lemma_render_tail_push(xs.drop_first(), x);
        assert(xs.push(x).drop_first() =~= xs.drop_first().push(x));
        assert(spec_render_comp(xs[0]) + (spec_render_tail(xs.drop_first()) + seq!['.']
            + spec_render_comp(x)) =~= (spec_render_comp(xs[0]) + spec_render_tail(
            xs.drop_first(),
        )) + seq!['.'] + spec_render_comp(x));
    }
}

/// Versions are equal exactly when the ordering finds no difference; in
/// particular trailing zero components are immaterial.
impl PartialEq for Version {
    fn eq(&self, other: &Self) -> (r: bool)
        ensures
            r == spec_version_eq(self@, other@),
    {
        match Version::cmp(self, other) {
            Ordering::Equal => true,
            _ => false,
        }
    }
}

impl vstd::std_specs::cmp::PartialEqSpecImpl for Version {
    open spec fn obeys_eq_spec() -> bool {
        true
    }

    open spec fn eq_spec(&self, other: &Version) -> bool {
        spec_version_eq(self@, other@)
    }
}

impl Eq for Version {}

/// The partial order agrees with `spec_cmp` on every pair: versions are
/// totally ordered.
impl PartialOrd for Version {
    fn partial_cmp(&self, other: &Self) -> (r: Option<Ordering>)
        ensures
            r == Some(ord_of(spec_cmp(self@, other@))),
    {
        Some(Version::cmp(self, other))
    }
}

impl vstd::std_specs::cmp::PartialOrdSpecImpl for Version {
    open spec fn obeys_partial_cmp_spec() -> bool {
        true
    }

    open spec fn partial_cmp_spec(&self, other: &Version) -> Option<Ordering> {
        Some(ord_of(spec_cmp(self@, other@)))
    }
}

/// The default version is `0.0.0`.
impl Default for Version {
    fn default() -> (v: Self)
        ensures
            v@ == seq![
                SpecComponent::Number(0u64),
                SpecComponent::Number(0u64),
                SpecComponent::Number(0u64),
            ],
    {
        let components = vec![Component::Number(0), Component::Number(0), Component::Number(0)];
        proof {
            assert(components@.map_values(|c: Component| c@) =~= seq![
                SpecComponent::Number(0u64),
                SpecComponent::Number(0u64),
                SpecComponent::Number(0u64),
            ]);
        }
        Version(components)
    }
}

} // verus!

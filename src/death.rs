//! Death messages: templates read from a localization table, and the matcher
//! that recovers victim, attacker and weapon from a message.
use vstd::prelude::*;

use crate::bytes::{find, find_from, has_prefix, lemma_find_from_leftmost, occurs_at, starts_with};
use crate::error::ParseError;

verus! {

/// What a slot of a death template captures.
#[derive(Clone, Copy, Debug, PartialEq, Eq, Structural)]
pub enum DeathMessageComponent {
    Victim,
    Attacker,
    Weapon,
    Empty,
}

/// One phrasing of a death message: a literal prefix, then three slots, each
/// followed by a literal. Slots that the phrasing does not use are `Empty`,
/// and come last.
#[derive(Debug)]
pub struct DeathTemplate {
    pub prefix: Vec<u8>,
    pub slot1: DeathMessageComponent,
    pub infix1: Vec<u8>,
    pub slot2: DeathMessageComponent,
    pub infix2: Vec<u8>,
    pub slot3: DeathMessageComponent,
    pub suffix: Vec<u8>,
}

/// The bytes of a death template.
pub struct TemplateView {
    pub prefix: Seq<u8>,
    pub slot1: DeathMessageComponent,
    pub infix1: Seq<u8>,
    pub slot2: DeathMessageComponent,
    pub infix2: Seq<u8>,
    pub slot3: DeathMessageComponent,
    pub suffix: Seq<u8>,
}

impl View for DeathTemplate {
    type V = TemplateView;

    open spec fn view(&self) -> TemplateView {
        TemplateView {
            prefix: self.prefix@,
            slot1: self.slot1,
            infix1: self.infix1@,
            slot2: self.slot2,
            infix2: self.infix2@,
            slot3: self.slot3,
            suffix: self.suffix@,
        }
    }
}

/// The templates in order of precedence: earlier ones are tried first.
#[derive(Debug)]
pub struct DeathTable {
    pub templates: Vec<DeathTemplate>,
}

impl View for DeathTable {
    type V = Seq<TemplateView>;

    open spec fn view(&self) -> Seq<TemplateView> {
        self.templates@.map_values(|t: DeathTemplate| t@)
    }
}

/// What a matched death message names; unbound slots are empty.
pub struct DeathCaptures {
    pub victim: Seq<u8>,
    pub attacker: Seq<u8>,
    pub weapon: Seq<u8>,
}

/// The parts of a death message, as views into the message.
#[derive(Clone, Copy, Debug)]
pub struct DeathParts<'a> {
    pub victim: &'a [u8],
    pub attacker: &'a [u8],
    pub weapon: &'a [u8],
}

impl<'a> View for DeathParts<'a> {
    type V = DeathCaptures;

    open spec fn view(&self) -> DeathCaptures {
        DeathCaptures { victim: self.victim@, attacker: self.attacker@, weapon: self.weapon@ }
    }
}

pub open spec fn no_captures() -> DeathCaptures {
    DeathCaptures { victim: Seq::empty(), attacker: Seq::empty(), weapon: Seq::empty() }
}

/// `c` with the slot of kind `kind` bound to `v`.
pub open spec fn bind(c: DeathCaptures, kind: DeathMessageComponent, v: Seq<u8>) -> DeathCaptures {
    match kind {
        DeathMessageComponent::Victim => DeathCaptures {
            victim: v,
            attacker: c.attacker,
            weapon: c.weapon,
        },
        DeathMessageComponent::Attacker => DeathCaptures {
            victim: c.victim,
            attacker: v,
            weapon: c.weapon,
        },
        DeathMessageComponent::Weapon => DeathCaptures {
            victim: c.victim,
            attacker: c.attacker,
            weapon: v,
        },
        DeathMessageComponent::Empty => c,
    }
}

/// One slot and the literal after it, matched at the front of `s`: what is
/// left of `s` and the captures so far, or `None` where the template fails.
/// A capturing slot followed by a literal takes the bytes before the leftmost
/// occurrence of the literal that leaves it at least one byte; followed by no
/// literal, it takes all of `s`.
pub open spec fn match_step(
    kind: DeathMessageComponent,
    lit: Seq<u8>,
    s: Seq<u8>,
    c: DeathCaptures,
) -> Option<(Seq<u8>, DeathCaptures)> {
    if kind == DeathMessageComponent::Empty {
        if has_prefix(s, lit) {
            Some((s.subrange(lit.len() as int, s.len() as int), c))
        } else {
            None
        }
    } else if lit.len() == 0 {
        Some((Seq::empty(), bind(c, kind, s)))
    } else {
        match find_from(s, lit, 1) {
            Some(i) => Some((s.subrange(i + lit.len(), s.len() as int), bind(c, kind, s.subrange(0, i)))),
            None => None,
        }
    }
}

/// The captures of template `t` on the message `s`, if it matches. Bytes left
/// over after the last literal belong to the message and are ignored.
pub open spec fn match_template(t: TemplateView, s: Seq<u8>) -> Option<DeathCaptures> {
    if !has_prefix(s, t.prefix) {
        None
    } else {
        let s0 = s.subrange(t.prefix.len() as int, s.len() as int);
        match match_step(t.slot1, t.infix1, s0, no_captures()) {
            None => None,
            Some((s1, c1)) => match match_step(t.slot2, t.infix2, s1, c1) {
                None => None,
                Some((s2, c2)) => match match_step(t.slot3, t.suffix, s2, c2) {
                    None => None,
                    Some((_, c3)) => Some(c3),
                },
            },
        }
    }
}

/// The captures of the first template from index `k` on that matches `s`.
pub open spec fn first_match(ts: Seq<TemplateView>, s: Seq<u8>, k: int) -> Option<DeathCaptures>
    decreases ts.len() - k,
{
    if k < 0 || k >= ts.len() {
        None
    } else {
        match match_template(ts[k], s) {
            Some(c) => Some(c),
            None => first_match(ts, s, k + 1),
        }
    }
}

/// Matches one slot and the literal after it at the front of `s`.
fn match_step_exec<'a>(
    kind: DeathMessageComponent,
    lit: &[u8],
    s: &'a [u8],
    c: DeathParts<'a>,
) -> (r: Option<(&'a [u8], DeathParts<'a>)>)
    ensures
        match r {
            Some((rest, c2)) => match_step(kind, lit@, s@, c@) == Some((rest@, c2@)),
            None => match_step(kind, lit@, s@, c@) is None,
        },
{
    if kind == DeathMessageComponent::Empty {
        if starts_with(s, lit) {
            Some((&s[lit.len()..s.len()], c))
        } else {
            None
        }
    } else if lit.len() == 0 {
        Some((&s[s.len()..s.len()], bind_exec(c, kind, s)))
    } else {
        match find(s, lit, 1) {
            Some(i) => {
                proof {
                    lemma_find_from_leftmost(s@, lit@, 1);
                }
                assert(i + lit.len() <= s.len());
                Some((&s[i + lit.len()..s.len()], bind_exec(c, kind, &s[0..i])))
            },
            None => None,
        }
    }
}

fn bind_exec<'a>(c: DeathParts<'a>, kind: DeathMessageComponent, v: &'a [u8]) -> (r: DeathParts<'a>)
    ensures
        r@ == bind(c@, kind, v@),
{
    match kind {
        DeathMessageComponent::Victim => DeathParts { victim: v, attacker: c.attacker, weapon: c.weapon },
        DeathMessageComponent::Attacker => DeathParts { victim: c.victim, attacker: v, weapon: c.weapon },
        DeathMessageComponent::Weapon => DeathParts { victim: c.victim, attacker: c.attacker, weapon: v },
        DeathMessageComponent::Empty => c,
    }
}

impl DeathTemplate {
    /// The victim, attacker and weapon that this template reads in `s`, if it
    /// matches.
    pub fn match_message<'a>(&self, s: &'a [u8]) -> (r: Option<DeathParts<'a>>)
        ensures
            match r {
                Some(c) => match_template(self@, s@) == Some(c@),
                None => match_template(self@, s@) is None,
            },
    {
        if !starts_with(s, self.prefix.as_slice()) {
            return None;
        }
        let s0 = &s[self.prefix.len()..s.len()];
        let none = DeathParts { victim: &s[0..0], attacker: &s[0..0], weapon: &s[0..0] };
        assert(none.victim@ =~= Seq::<u8>::empty());
        let (s1, c1) = match match_step_exec(self.slot1, self.infix1.as_slice(), s0, none) {
            Some(p) => p,
            None => return None,
        };
        let (s2, c2) = match match_step_exec(self.slot2, self.infix2.as_slice(), s1, c1) {
            Some(p) => p,
            None => return None,
        };
        match match_step_exec(self.slot3, self.suffix.as_slice(), s2, c2) {
            Some((_, c3)) => Some(c3),
            None => None,
        }
    }
}

impl DeathTable {
    /// The victim, attacker and weapon of the death message `s`, read by the
    /// first template of the table that matches it.
    pub fn match_death<'a>(&self, s: &'a [u8]) -> (r: Result<DeathParts<'a>, ParseError>)
        ensures
            match r {
                Ok(c) => first_match(self@, s@, 0) == Some(c@),
                Err(e) => e == ParseError::DeathMessageTemplateExhausted && first_match(
                    self@,
                    s@,
                    0,
                ) is None,
            },
    {
        let mut k: usize = 0;
        while k < self.templates.len()
            invariant
                k <= self.templates@.len(),
                first_match(self@, s@, 0) == first_match(self@, s@, k as int),
            decreases self.templates@.len() - k,
        {
            if let Some(c) = self.templates[k].match_message(s) {
                return Ok(c);
            }
            k += 1;
        }
        Err(ParseError::DeathMessageTemplateExhausted)
    }
}

/// Templates are tried in table order: the first one that matches decides
/// the captures, whatever later templates would give.
pub proof fn lemma_first_matching_template_wins(ts: Seq<TemplateView>, s: Seq<u8>, i: int)
    requires
        0 <= i < ts.len(),
        match_template(ts[i], s) is Some,
        forall|j: int| 0 <= j < i ==> match_template(#[trigger] ts[j], s) is None,
    ensures
        first_match(ts, s, 0) == match_template(ts[i], s),
{
    lemma_first_match_skips(ts, s, 0, i);
}

proof fn lemma_first_match_skips(ts: Seq<TemplateView>, s: Seq<u8>, k: int, i: int)
    requires
        0 <= k <= i < ts.len(),
        match_template(ts[i], s) is Some,
        forall|j: int| 0 <= j < i ==> match_template(#[trigger] ts[j], s) is None,
    ensures
        first_match(ts, s, k) == match_template(ts[i], s),
    decreases i - k,
{
    if k < i {
        lemma_first_match_skips(ts, s, k + 1, i);
    }
}

/// The bytes that the slot of kind `kind` holds in `c`.
pub open spec fn captured(c: DeathCaptures, kind: DeathMessageComponent) -> Seq<u8> {
    match kind {
        DeathMessageComponent::Victim => c.victim,
        DeathMessageComponent::Attacker => c.attacker,
        DeathMessageComponent::Weapon => c.weapon,
        DeathMessageComponent::Empty => Seq::empty(),
    }
}

/// A capturing slot followed by a literal takes the shortest non-empty run of
/// bytes that the literal follows: the capture ends at the leftmost occurrence
/// of the literal after the first byte, and matching goes on after it.
pub proof fn lemma_capture_is_leftmost(
    kind: DeathMessageComponent,
    lit: Seq<u8>,
    s: Seq<u8>,
    c: DeathCaptures,
)
    requires
        kind != DeathMessageComponent::Empty,
        lit.len() > 0,
        match_step(kind, lit, s, c) is Some,
    ensures
        ({
            let (rest, c2) = match_step(kind, lit, s, c)->0;
            let v = captured(c2, kind);
            &&& 1 <= v.len()
            &&& v == s.subrange(0, v.len() as int)
            &&& occurs_at(s, lit, v.len() as int)
            &&& forall|j: int| 1 <= j < v.len() ==> !occurs_at(s, lit, j)
            &&& rest == s.subrange(v.len() + lit.len() as int, s.len() as int)
        }),
{
    lemma_find_from_leftmost(s, lit, 1);
}

} // verus!

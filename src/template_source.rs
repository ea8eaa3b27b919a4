//! Building the death-template table from a localization source, one entry
//! per line.
use vstd::prelude::*;

use crate::bytes::{
    ascii, ascii_bytes, find, find_from, has_prefix, lemma_find_from_leftmost, occurs_at, opt_int,
    rfind, rfind_byte, starts_with,
};
use crate::death::{DeathMessageComponent, DeathTable, DeathTemplate, TemplateView};
use crate::error::ParseError;

verus! {

pub const NEWLINE: u8 = 10;

pub const QUOTE: u8 = 34;

/// The placeholder of the victim in a template.
pub open spec fn victim_token() -> Seq<u8> {
    ascii("%1$s"@)
}

/// The placeholder of the attacker in a template.
pub open spec fn attacker_token() -> Seq<u8> {
    ascii("%2$s"@)
}

/// The placeholder of the weapon in a template.
pub open spec fn weapon_token() -> Seq<u8> {
    ascii("%3$s"@)
}

/// How a line holding a death entry begins.
pub open spec fn entry_marker() -> Seq<u8> {
    ascii("  \"death."@)
}

/// What separates an entry's key from its quoted value.
pub open spec fn value_separator() -> Seq<u8> {
    ascii(": \""@)
}

/// `slots`, ordered by position, with `p` placed before the first slot that
/// stands later than it.
pub open spec fn insert_by_position(
    slots: Seq<(int, DeathMessageComponent)>,
    p: (int, DeathMessageComponent),
) -> Seq<(int, DeathMessageComponent)>
    decreases slots.len(),
{
    if slots.len() == 0 {
        seq![p]
    } else if p.0 < slots[0].0 {
        seq![p] + slots
    } else {
        seq![slots[0]] + insert_by_position(slots.drop_first(), p)
    }
}

/// The placeholders found in a template, ordered by position.
pub open spec fn slot_order(victim: int, attacker: Option<int>, weapon: Option<int>) -> Seq<
    (int, DeathMessageComponent),
> {
    let one = seq![(victim, DeathMessageComponent::Victim)];
    let two = match attacker {
        Some(p) => insert_by_position(one, (p, DeathMessageComponent::Attacker)),
        None => one,
    };
    match weapon {
        Some(p) => insert_by_position(two, (p, DeathMessageComponent::Weapon)),
        None => two,
    }
}

/// The `i`-th placeholder, or an `Empty` slot at the end of the text.
pub open spec fn slot_or_empty(slots: Seq<(int, DeathMessageComponent)>, i: int, len: int) -> (
    int,
    DeathMessageComponent,
) {
    if i < slots.len() {
        slots[i]
    } else {
        (len, DeathMessageComponent::Empty)
    }
}

/// The literal text between the placeholder `cur` and position `next`.
pub open spec fn literal_after(s: Seq<u8>, cur: (int, DeathMessageComponent), next: int) -> Seq<
    u8,
> {
    if cur.1 == DeathMessageComponent::Empty {
        Seq::empty()
    } else {
        s.subrange(cur.0 + 4, next)
    }
}

/// The template that a template text describes: its slots follow the first
/// occurrence of each placeholder by position, and its literals are the text
/// around them. A text without the victim's placeholder describes none.
pub open spec fn template_of_text(s: Seq<u8>) -> Option<TemplateView> {
    match find_from(s, victim_token(), 0) {
        None => None,
        Some(v) => {
            let slots = slot_order(
                v,
                find_from(s, attacker_token(), 0),
                find_from(s, weapon_token(), 0),
            );
            let f = slot_or_empty(slots, 0, s.len() as int);
            let g = slot_or_empty(slots, 1, s.len() as int);
            let h = slot_or_empty(slots, 2, s.len() as int);
            Some(
                TemplateView {
                    prefix: s.subrange(0, f.0),
                    slot1: f.1,
                    infix1: literal_after(s, f, g.0),
                    slot2: g.1,
                    infix2: literal_after(s, g, h.0),
                    slot3: h.1,
                    suffix: literal_after(s, h, s.len() as int),
                },
            )
        },
    }
}

/// The quoted value of an entry: from after the first `: "` to the last quote.
pub open spec fn entry_text(line: Seq<u8>) -> Option<Seq<u8>> {
    match find_from(line, value_separator(), 0) {
        None => None,
        Some(i) => {
            let rest = line.subrange(i + value_separator().len(), line.len() as int);
            match rfind_byte(rest, QUOTE, rest.len() as int) {
                Some(q) => Some(rest.subrange(0, q)),
                None => None,
            }
        },
    }
}

/// What one line of the source gives: no template where the line is not a
/// death entry, an error where it is one that cannot be read.
pub open spec fn entry_of_line(line: Seq<u8>) -> Result<Option<TemplateView>, ParseError> {
    if !has_prefix(line, entry_marker()) {
        Ok(None)
    } else {
        match entry_text(line) {
            None => Err(ParseError::TemplateSourceEntryMalformed),
            Some(t) => match template_of_text(t) {
                None => Err(ParseError::TemplateSourceEntryMalformed),
                Some(tv) => Ok(Some(tv)),
            },
        }
    }
}

/// The templates of one line: one for a readable death entry, none otherwise.
pub open spec fn templates_of_line(line: Seq<u8>) -> Seq<TemplateView> {
    match entry_of_line(line) {
        Ok(Some(t)) => seq![t],
        _ => Seq::empty(),
    }
}

/// The templates of the lines of `src` from the line that begins at `start`,
/// scanning from index `i` of that line on.
pub open spec fn templates_scan(src: Seq<u8>, start: int, i: int) -> Seq<TemplateView>
    decreases src.len() - i,
{
    if i >= src.len() {
        templates_of_line(src.subrange(start, src.len() as int))
    } else if src[i] == NEWLINE {
        templates_of_line(src.subrange(start, i)) + templates_scan(src, i + 1, i + 1)
    } else {
        templates_scan(src, start, i + 1)
    }
}

/// The templates of all lines of `src`, split at each newline, in order.
pub open spec fn templates_in(src: Seq<u8>) -> Seq<TemplateView> {
    templates_scan(src, 0, 0)
}

fn victim_literal() -> (r: &'static [u8])
    ensures
        r@ == victim_token(),
{
    proof {
        reveal_strlit("%1$s");
    }
    ascii_bytes("%1$s")
}

fn attacker_literal() -> (r: &'static [u8])
    ensures
        r@ == attacker_token(),
{
    proof {
        reveal_strlit("%2$s");
    }
    ascii_bytes("%2$s")
}

fn weapon_literal() -> (r: &'static [u8])
    ensures
        r@ == weapon_token(),
{
    proof {
        reveal_strlit("%3$s");
    }
    ascii_bytes("%3$s")
}

fn entry_marker_literal() -> (r: &'static [u8])
    ensures
        r@ == entry_marker(),
{
    proof {
        reveal_strlit("  \"death.");
    }
    ascii_bytes("  \"death.")
}

fn value_separator_literal() -> (r: &'static [u8])
    ensures
        r@ == value_separator(),
        r@.len() == 3,
{
    proof {
        reveal_strlit(": \"");
    }
    ascii_bytes(": \"")
}

/// The three placeholders are four bytes long, begin with `%`, and hold no
/// other `%`.
proof fn lemma_token_shape()
    ensures
        forall|t: Seq<u8>|
            #![auto]
            t == victim_token() || t == attacker_token() || t == weapon_token() ==> {
                &&& t.len() == 4
                &&& t[0] == 37
                &&& t[1] != 37 && t[2] != 37 && t[3] != 37
            },
        victim_token() != attacker_token(),
        victim_token() != weapon_token(),
        attacker_token() != weapon_token(),
{
    reveal_strlit("%1$s");
    reveal_strlit("%2$s");
    reveal_strlit("%3$s");
    assert(victim_token()[1] != attacker_token()[1]);
    assert(victim_token()[1] != weapon_token()[1]);
    assert(attacker_token()[1] != weapon_token()[1]);
}

/// Two different placeholders found in one text do not overlap.
proof fn lemma_tokens_apart(s: Seq<u8>, t1: Seq<u8>, p: int, t2: Seq<u8>, q: int)
    requires
        t1 == victim_token() || t1 == attacker_token() || t1 == weapon_token(),
        t2 == victim_token() || t2 == attacker_token() || t2 == weapon_token(),
        t1 != t2,
        occurs_at(s, t1, p),
        occurs_at(s, t2, q),
    ensures
        p + 4 <= q || q + 4 <= p,
{
    lemma_token_shape();
    if p == q {
        assert forall|k: int| 0 <= k < 4 implies t1[k] == t2[k] by {
            assert(s.subrange(p, p + 4)[k] == s[p + k]);
            assert(s.subrange(q, q + 4)[k] == s[q + k]);
        }
        assert(t1 =~= t2);
    } else if p < q && q < p + 4 {
        assert(s.subrange(p, p + 4)[q - p] == s[q]);
        assert(s.subrange(q, q + 4)[0] == s[q]);
    } else if q < p && p < q + 4 {
        assert(s.subrange(q, q + 4)[p - q] == s[p]);
        assert(s.subrange(p, p + 4)[0] == s[p]);
    }
}

pub open spec fn slot_int(p: (usize, DeathMessageComponent)) -> (int, DeathMessageComponent) {
    (p.0 as int, p.1)
}

/// Orders the placeholders found in a text of length `len` by position.
fn order_slots(len: usize, v: usize, a: Option<usize>, w: Option<usize>) -> (r: (
    (usize, DeathMessageComponent),
    (usize, DeathMessageComponent),
    (usize, DeathMessageComponent),
))
    requires
        v + 4 <= len,
        a matches Some(p) ==> p + 4 <= len && (p + 4 <= v || v + 4 <= p),
        w matches Some(p) ==> p + 4 <= len && (p + 4 <= v || v + 4 <= p),
        a matches Some(p) ==> w matches Some(q) ==> (p + 4 <= q || q + 4 <= p),
    ensures
        ({
            let slots = slot_order(v as int, opt_int(a), opt_int(w));
            &&& slot_int(r.0) == slot_or_empty(slots, 0, len as int)
            &&& slot_int(r.1) == slot_or_empty(slots, 1, len as int)
            &&& slot_int(r.2) == slot_or_empty(slots, 2, len as int)
        }),
        r.0.1 != DeathMessageComponent::Empty,
        r.0.0 + 4 <= r.1.0 <= len,
        r.1.1 != DeathMessageComponent::Empty ==> r.1.0 + 4 <= r.2.0 <= len,
        r.1.1 == DeathMessageComponent::Empty ==> r.1.0 == len && r.2.1
            == DeathMessageComponent::Empty,
        r.2.1 != DeathMessageComponent::Empty ==> r.2.0 + 4 <= len,
        r.2.1 == DeathMessageComponent::Empty ==> r.2.0 == len,
{
    proof {
        reveal_with_fuel(insert_by_position, 3);
    }
    let mut first = (v, DeathMessageComponent::Victim);
    let mut second = (len, DeathMessageComponent::Empty);
    let mut third = (len, DeathMessageComponent::Empty);
    if let Some(p) = a {
        if p < v {
            second = first;
            first = (p, DeathMessageComponent::Attacker);
        } else {
            second = (p, DeathMessageComponent::Attacker);
        }
    }
    if let Some(p) = w {
        if second.1 == DeathMessageComponent::Empty {
            if p < first.0 {
                second = first;
                first = (p, DeathMessageComponent::Weapon);
            } else {
                second = (p, DeathMessageComponent::Weapon);
            }
        } else {
            if p < first.0 {
                third = second;
                second = first;
                first = (p, DeathMessageComponent::Weapon);
            } else if p < second.0 {
                third = second;
                second = (p, DeathMessageComponent::Weapon);
            } else {
                third = (p, DeathMessageComponent::Weapon);
            }
        }
    }
    proof {
        let one = seq![(v as int, DeathMessageComponent::Victim)];
        let two = match opt_int(a) {
            Some(p) => insert_by_position(one, (p, DeathMessageComponent::Attacker)),
            None => one,
        };
        assert(one.drop_first() =~= Seq::<(int, DeathMessageComponent)>::empty());
        if two.len() == 2 {
            assert(two.drop_first().drop_first() =~= Seq::<(int, DeathMessageComponent)>::empty());
        }
    }
    (first, second, third)
}

fn literal_vec(s: &[u8], cur: (usize, DeathMessageComponent), next: usize) -> (r: Vec<u8>)
    requires
        cur.1 != DeathMessageComponent::Empty ==> cur.0 + 4 <= next <= s@.len(),
    ensures
        r@ == literal_after(s@, slot_int(cur), next as int),
{
    if cur.1 == DeathMessageComponent::Empty {
        Vec::new()
    } else {
        vstd::slice::slice_to_vec(&s[cur.0 + 4..next])
    }
}

/// The template that a template text describes, or `None` where the text has
/// no victim placeholder.
pub fn template_from_text(s: &[u8]) -> (r: Option<DeathTemplate>)
    ensures
        match r {
            Some(t) => template_of_text(s@) == Some(t@),
            None => template_of_text(s@) is None,
        },
{
    let v = match find(s, victim_literal(), 0) {
        Some(v) => v,
        None => return None,
    };
    let a = find(s, attacker_literal(), 0);
    let w = find(s, weapon_literal(), 0);
    proof {
        lemma_token_shape();
        lemma_find_from_leftmost(s@, victim_token(), 0);
        lemma_find_from_leftmost(s@, attacker_token(), 0);
        lemma_find_from_leftmost(s@, weapon_token(), 0);
        if let Some(p) = a {
            lemma_tokens_apart(s@, victim_token(), v as int, attacker_token(), p as int);
            if let Some(q) = w {
                lemma_tokens_apart(s@, attacker_token(), p as int, weapon_token(), q as int);
            }
        }
        if let Some(q) = w {
            lemma_tokens_apart(s@, victim_token(), v as int, weapon_token(), q as int);
        }
    }
    let (f, g, h) = order_slots(s.len(), v, a, w);
    let prefix = vstd::slice::slice_to_vec(&s[0..f.0]);
    let infix1 = literal_vec(s, f, g.0);
    let infix2 = literal_vec(s, g, h.0);
    let suffix = literal_vec(s, h, s.len());
    Some(
        DeathTemplate {
            prefix,
            slot1: f.1,
            infix1,
            slot2: g.1,
            infix2,
            slot3: h.1,
            suffix,
        },
    )
}

/// The quoted value of an entry line, from after the first `: "` up to the
/// last quote.
pub fn entry_value(line: &[u8]) -> (r: Option<&[u8]>)
    ensures
        match r {
            Some(t) => entry_text(line@) == Some(t@),
            None => entry_text(line@) is None,
        },
{
    let sep = value_separator_literal();
    let i = match find(line, sep, 0) {
        Some(i) => i,
        None => return None,
    };
    proof {
        lemma_find_from_leftmost(line@, value_separator(), 0);
    }
    assert(i + sep.len() <= line.len());
    let rest = &line[i + sep.len()..line.len()];
    match rfind(rest, QUOTE) {
        Some(q) => {
            proof {
                crate::bytes::lemma_rfind_byte_rightmost(rest@, QUOTE, rest@.len() as int);
            }
            Some(&rest[0..q])
        },
        None => None,
    }
}

/// Reads one line of the localization source: `Ok(None)` where it is not a
/// death entry, the entry's template where it is one, and
/// `TemplateSourceEntryMalformed` where its value cannot be read or has no
/// victim placeholder.
pub fn parse_template_entry(line: &[u8]) -> (r: Result<Option<DeathTemplate>, ParseError>)
    ensures
        match r {
            Ok(Some(t)) => entry_of_line(line@) == Ok::<Option<TemplateView>, ParseError>(Some(t@)),
            Ok(None) => entry_of_line(line@) == Ok::<Option<TemplateView>, ParseError>(None),
            Err(e) => entry_of_line(line@) == Err::<Option<TemplateView>, ParseError>(e),
        },
{
    if !starts_with(line, entry_marker_literal()) {
        return Ok(None);
    }
    match entry_value(line) {
        None => Err(ParseError::TemplateSourceEntryMalformed),
        Some(text) => match template_from_text(text) {
            None => Err(ParseError::TemplateSourceEntryMalformed),
            Some(t) => Ok(Some(t)),
        },
    }
}

impl DeathTable {
    /// A table of the given templates, in order of precedence.
    pub fn new(templates: Vec<DeathTemplate>) -> (r: DeathTable)
        ensures
            r@ == templates@.map_values(|t: DeathTemplate| t@),
    {
        DeathTable { templates }
    }

    /// The table of the death entries of a localization source, in the order
    /// of its lines; lines that are no death entry, or a malformed one, add
    /// nothing.
    pub fn from_source(src: &[u8]) -> (r: DeathTable)
        ensures
            r@ == templates_in(src@),
    {
        let mut templates: Vec<DeathTemplate> = Vec::new();
        let mut start: usize = 0;
        let mut i: usize = 0;
        while i < src.len()
            invariant
                start <= i <= src@.len(),
                templates@.map_values(|t: DeathTemplate| t@) + templates_scan(src@, start as int, i as int)
                    == templates_in(src@),
            decreases src@.len() - i,
        {
            if src[i] == NEWLINE {
                let ghost before = templates@.map_values(|t: DeathTemplate| t@);
                push_entry(&mut templates, &src[start..i]);
                assert(before + templates_scan(src@, start as int, i as int) =~= templates@.map_values(
                    |t: DeathTemplate| t@,
                ) + templates_scan(src@, i + 1, i + 1));
                start = i + 1;
            }
            i += 1;
        }
        let ghost before = templates@.map_values(|t: DeathTemplate| t@);
        push_entry(&mut templates, &src[start..src.len()]);
        assert(templates@.map_values(|t: DeathTemplate| t@) =~= before + templates_scan(
            src@,
            start as int,
            i as int,
        ));
        DeathTable { templates }
    }
}

/// Appends the template of one source line, if it has one.
fn push_entry(templates: &mut Vec<DeathTemplate>, line: &[u8])
    ensures
        final(templates)@.map_values(|t: DeathTemplate| t@) == old(templates)@.map_values(
            |t: DeathTemplate| t@,
        ) + templates_of_line(line@),
{
    if let Ok(Some(t)) = parse_template_entry(line) {
        let ghost tv = t@;
        templates.push(t);
        assert(templates@.map_values(|t: DeathTemplate| t@) =~= old(templates)@.map_values(
            |t: DeathTemplate| t@,
        ) + seq![tv]);
    } else {
        assert(old(templates)@.map_values(|t: DeathTemplate| t@) + templates_of_line(line@)
            =~= old(templates)@.map_values(|t: DeathTemplate| t@));
    }
}

/// One of the template's slots captures the victim.
pub open spec fn names_victim(t: TemplateView) -> bool {
    t.slot1 == DeathMessageComponent::Victim || t.slot2 == DeathMessageComponent::Victim || t.slot3
        == DeathMessageComponent::Victim
}

proof fn lemma_text_template_names_victim(s: Seq<u8>)
    requires
        template_of_text(s) is Some,
    ensures
        names_victim(template_of_text(s)->0),
{
    reveal_with_fuel(insert_by_position, 3);
    let v = find_from(s, victim_token(), 0)->0;
    let one = seq![(v, DeathMessageComponent::Victim)];
    assert(one.drop_first() =~= Seq::<(int, DeathMessageComponent)>::empty());
    let two = match find_from(s, attacker_token(), 0) {
        Some(p) => insert_by_position(one, (p, DeathMessageComponent::Attacker)),
        None => one,
    };
    if two.len() == 2 {
        assert(two.drop_first().drop_first() =~= Seq::<(int, DeathMessageComponent)>::empty());
    }
}

proof fn lemma_scan_names_victim(src: Seq<u8>, start: int, i: int)
    requires
        0 <= start <= i <= src.len(),
    ensures
        forall|k: int|
            0 <= k < templates_scan(src, start, i).len() ==> names_victim(
                #[trigger] templates_scan(src, start, i)[k],
            ),
    decreases src.len() - i,
{
    if i >= src.len() {
        lemma_line_names_victim(src.subrange(start, src.len() as int));
        assert(templates_scan(src, start, i) == templates_of_line(
            src.subrange(start, src.len() as int),
        ));
    } else if src[i] == NEWLINE {
        lemma_line_names_victim(src.subrange(start, i));
        lemma_scan_names_victim(src, i + 1, i + 1);
        let first = templates_of_line(src.subrange(start, i));
        let rest = templates_scan(src, i + 1, i + 1);
        assert(templates_scan(src, start, i) == first + rest);
        assert forall|k: int| 0 <= k < (first + rest).len() implies names_victim(
            #[trigger] (first + rest)[k],
        ) by {
            if k >= first.len() {
                assert((first + rest)[k] == rest[k - first.len()]);
            }
        }
    } else {
        lemma_scan_names_victim(src, start, i + 1);
        assert(templates_scan(src, start, i) == templates_scan(src, start, i + 1));
    }
}

proof fn lemma_line_names_victim(line: Seq<u8>)
    ensures
        forall|k: int| 0 <= k < templates_of_line(line).len() ==> names_victim(
            #[trigger] templates_of_line(line)[k],
        ),
{
    if let Ok(Some(t)) = entry_of_line(line) {
        lemma_text_template_names_victim(entry_text(line)->0);
    }
}

/// Every template of a table built from a localization source captures the
/// victim: entries without the victim's placeholder are left out.
pub proof fn lemma_table_templates_name_victim(src: Seq<u8>)
    ensures
        forall|k: int| 0 <= k < templates_in(src).len() ==> names_victim(
            #[trigger] templates_in(src)[k],
        ),
{
    lemma_scan_names_victim(src, 0, 0);
}

} // verus!

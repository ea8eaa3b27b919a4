use gluemc::death::{DeathMessageComponent, DeathTable, DeathTemplate};
use gluemc::error::ParseError;
use gluemc::template_source::{entry_value, parse_template_entry, template_from_text};

use DeathMessageComponent::{Attacker, Empty, Victim, Weapon};

fn template(
    prefix: &[u8],
    slot1: DeathMessageComponent,
    infix1: &[u8],
    slot2: DeathMessageComponent,
    infix2: &[u8],
    slot3: DeathMessageComponent,
    suffix: &[u8],
) -> DeathTemplate {
    DeathTemplate {
        prefix: prefix.to_vec(),
        slot1,
        infix1: infix1.to_vec(),
        slot2,
        infix2: infix2.to_vec(),
        slot3,
        suffix: suffix.to_vec(),
    }
}

fn parts(table: &DeathTable, s: &[u8]) -> (Vec<u8>, Vec<u8>, Vec<u8>) {
    let p = table.match_death(s).unwrap();
    (p.victim.to_vec(), p.attacker.to_vec(), p.weapon.to_vec())
}

fn owned(v: &[u8], a: &[u8], w: &[u8]) -> (Vec<u8>, Vec<u8>, Vec<u8>) {
    (v.to_vec(), a.to_vec(), w.to_vec())
}

fn assert_template(t: &DeathTemplate, expected: &DeathTemplate) {
    assert_eq!(t.prefix, expected.prefix);
    assert_eq!(t.slot1, expected.slot1);
    assert_eq!(t.infix1, expected.infix1);
    assert_eq!(t.slot2, expected.slot2);
    assert_eq!(t.infix2, expected.infix2);
    assert_eq!(t.slot3, expected.slot3);
    assert_eq!(t.suffix, expected.suffix);
}

#[test]
fn slain_by_using_weapon() {
    let table = DeathTable::new(vec![template(
        b"", Victim, b" was slain by ", Attacker, b" using ", Weapon, b"",
    )]);
    assert_eq!(
        parts(&table, b"Bob was slain by Zombie using Sword"),
        owned(b"Bob", b"Zombie", b"Sword")
    );
}

#[test]
fn leftmost_infix_splits_victim() {
    let table = DeathTable::new(vec![template(
        b"", Victim, b" killed ", Attacker, b"", Empty, b"",
    )]);
    assert_eq!(
        parts(&table, b"a killed b killed c"),
        owned(b"a", b"b killed c", b"")
    );
}

#[test]
fn overlapping_literal_takes_leftmost_after_first_byte() {
    let table = DeathTable::new(vec![template(b"", Victim, b"aa", Empty, b"", Empty, b"")]);
    assert_eq!(parts(&table, b"aaaa"), owned(b"a", b"", b""));
    assert_eq!(parts(&table, b"xaaa"), owned(b"x", b"", b""));
}

#[test]
fn earlier_template_wins() {
    let table = DeathTable::new(vec![
        template(b"", Victim, b" died", Empty, b"", Empty, b""),
        template(b"", Victim, b" died because of ", Attacker, b"", Empty, b""),
    ]);
    assert_eq!(
        parts(&table, b"Bob died because of Zombie"),
        owned(b"Bob", b"", b"")
    );
    let reversed = DeathTable::new(vec![
        template(b"", Victim, b" died because of ", Attacker, b"", Empty, b""),
        template(b"", Victim, b" died", Empty, b"", Empty, b""),
    ]);
    assert_eq!(
        parts(&reversed, b"Bob died because of Zombie"),
        owned(b"Bob", b"Zombie", b"")
    );
    assert_eq!(parts(&reversed, b"Bob died"), owned(b"Bob", b"", b""));
}

#[test]
fn prefix_and_suffix_literals() {
    let table = DeathTable::new(vec![template(
        b"Killed: ", Attacker, b" got ", Victim, b"!", Empty, b"",
    )]);
    assert_eq!(parts(&table, b"Killed: Zed got Amy!"), owned(b"Amy", b"Zed", b""));
    assert_eq!(
        table.match_death(b"killed: Zed got Amy!").map(|p| p.victim),
        Err(ParseError::DeathMessageTemplateExhausted)
    );
    assert_eq!(
        table.match_death(b"Killed: Zed got Amy").map(|p| p.victim),
        Err(ParseError::DeathMessageTemplateExhausted)
    );
}

#[test]
fn empty_remainder_fails_a_slot_with_literal() {
    let table = DeathTable::new(vec![template(b"x", Victim, b" y", Empty, b"", Empty, b"")]);
    assert_eq!(
        table.match_death(b"x").map(|p| p.victim),
        Err(ParseError::DeathMessageTemplateExhausted)
    );
    assert_eq!(
        table.match_death(b"x y").map(|p| p.victim),
        Err(ParseError::DeathMessageTemplateExhausted)
    );
}

#[test]
fn empty_table_is_exhausted() {
    let table = DeathTable::new(Vec::new());
    assert_eq!(
        table.match_death(b"Bob died").map(|p| p.victim),
        Err(ParseError::DeathMessageTemplateExhausted)
    );
}

#[test]
fn template_slots_follow_placeholder_positions() {
    let t = template_from_text(b"%2$s killed %1$s using %3$s").unwrap();
    assert_template(
        &t,
        &template(b"", Attacker, b" killed ", Victim, b" using ", Weapon, b""),
    );
    let t = template_from_text(b"%1$s was shot by %3$s of %2$s").unwrap();
    assert_template(
        &t,
        &template(b"", Victim, b" was shot by ", Weapon, b" of ", Attacker, b""),
    );
    let t = template_from_text(b"With %3$s, %1$s fell").unwrap();
    assert_template(
        &t,
        &template(b"With ", Weapon, b", ", Victim, b" fell", Empty, b""),
    );
    let t = template_from_text(b"%1$s").unwrap();
    assert_template(&t, &template(b"", Victim, b"", Empty, b"", Empty, b""));
    assert!(template_from_text(b"%2$s won").is_none());
}

#[test]
fn entry_value_is_between_separator_and_last_quote() {
    assert_eq!(
        entry_value(b"  \"death.attack.cactus\": \"%1$s was pricked to death\","),
        Some(b"%1$s was pricked to death".as_slice())
    );
    assert_eq!(entry_value(b"  \"death.attack.cactus\": x"), None);
    assert_eq!(entry_value(b"  \"death.attack.cactus\" \"x\""), None);
}

#[test]
fn entry_kinds() {
    assert!(matches!(
        parse_template_entry(b"  \"block.minecraft.stone\": \"Stone\","),
        Ok(None)
    ));
    assert!(matches!(
        parse_template_entry(b"  \"death.attack.message_too_long\": \"Actually, the message was too long\","),
        Err(ParseError::TemplateSourceEntryMalformed)
    ));
    assert!(matches!(
        parse_template_entry(b"  \"death.attack.x\": no quotes here"),
        Err(ParseError::TemplateSourceEntryMalformed)
    ));
    match parse_template_entry(b"  \"death.attack.drown\": \"%1$s drowned\",") {
        Ok(Some(t)) => assert_template(&t, &template(b"", Victim, b" drowned", Empty, b"", Empty, b"")),
        other => panic!("expected a template, got {:?}", other),
    }
}

#[test]
fn table_from_source_keeps_order_and_skips_others() {
    let src = b"{\n  \"death.attack.anvil\": \"%1$s was squashed by a falling anvil\",\n  \"block.minecraft.stone\": \"Stone\",\n  \"death.attack.message_too_long\": \"Actually, the message was too long\",\n  \"death.attack.arrow\": \"%1$s was shot by %2$s\",\n  \"death.attack.arrow.item\": \"%1$s was shot by %2$s using %3$s\"\n}";
    let table = DeathTable::from_source(src);
    assert_eq!(table.templates.len(), 3);
    assert_template(
        &table.templates[0],
        &template(b"", Victim, b" was squashed by a falling anvil", Empty, b"", Empty, b""),
    );
    assert_template(
        &table.templates[1],
        &template(b"", Victim, b" was shot by ", Attacker, b"", Empty, b""),
    );
    assert_template(
        &table.templates[2],
        &template(b"", Victim, b" was shot by ", Attacker, b" using ", Weapon, b""),
    );
    assert_eq!(
        parts(&table, b"Amy was shot by Skeleton using Bow"),
        owned(b"Amy", b"Skeleton using Bow", b"")
    );
}

#[test]
fn table_from_source_handles_crlf_and_empty() {
    let table = DeathTable::from_source(b"  \"death.fell\": \"%1$s fell\",\r\n");
    assert_eq!(table.templates.len(), 1);
    assert_template(
        &table.templates[0],
        &template(b"", Victim, b" fell", Empty, b"", Empty, b""),
    );
    assert_eq!(DeathTable::from_source(b"").templates.len(), 0);
    let last = DeathTable::from_source(b"\n  \"death.fell\": \"%1$s fell\"");
    assert_eq!(last.templates.len(), 1);
}

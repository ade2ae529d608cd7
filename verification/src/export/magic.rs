//! The remaining sections: Personality Traits, Reputations, Confidence,
//! supernatural Might and powers, magical possessions (devices, Longevity
//! Ritual, talisman, familiar), and the annotation block (Living
//! Conditions, Warping, Twilight Scars, Decrepitude, aging points, the
//! aging log).
use vstd::prelude::*;
use crate::effective::gift_confidence::confidence;
use crate::effective::might::effective_might;
use crate::effective::warping::{decrepitude_score, warping};
use crate::catalog::char_entry;
use crate::effective::clamp_u32;
use crate::effective::warping::{aging_points_sum, warping_points_total_spec, warping_score_spec};
use crate::catalog::find;
use crate::effective::gift_confidence::{clamp_byte, confidence_totals};
use crate::effective::might::effective_might_spec;
use crate::entity::{
    AgingLogEntry, EnchantedDevice, Entity, Familiar, LongevityRitual, PersonalityTrait, Reputation, SupernaturalPower, Talisman, TalismanAttunement,
    TalismanEffect, TwilightScar,
};
use crate::export::sections::{id_texts, ids_of, keys_of, lemma_keys_of_step, name_text};
use crate::ruleset::{LocalizedRuleset, Ruleset};
use crate::types::Id;
use crate::export::{blank, bullet, id_read, key_read, escape_cell, escape_spec, field, heading_text, is_blank, join, join_spec, label_text, num, pair, rows_view, strings_view, table, table_spec, Doc};
use vstd::seq_lib::lemma_concat_associative;
use crate::text::{concat, decimal_int, owned, signed, signed_spec};
use crate::types::{all_characteristics, Characteristic, MightScore};

verus! {

/// One bullet per Personality Trait, name and signed value, in order.
pub open spec fn trait_lines(traits: Seq<PersonalityTrait>) -> Seq<char>
    decreases traits.len(),
{
    if traits.len() == 0 {
        Seq::empty()
    } else {
        trait_lines(traits.drop_last()) + bullet(escape_spec(traits.last().name@), signed_spec(traits.last().value as int))
    }
}

/// One bullet per Personality Trait, name and signed value, then a blank
/// line.
fn write_traits(out: &mut String, traits: &Vec<PersonalityTrait>)
    ensures
        final(out)@ == old(out)@ + trait_lines(traits@) + "\n"@,
{
    let ghost start = out@;
    let mut i: usize = 0;
    while i < traits.len()
        invariant
            i <= traits@.len(),
            out@ == start + trait_lines(traits@.take(i as int)),
        decreases traits.len() - i,
    {
        proof {
            assert(traits@.take(i + 1).drop_last() =~= traits@.take(i as int));
        }
        let name = escape_cell(traits[i].name.as_str());
        let value = signed(traits[i].value as i64);
        field(out, name.as_str(), value.as_str());
        i += 1;
    }
    assert(traits@.take(traits@.len() as int) =~= traits@);
    out.append("\n");
}

/// A name-and-level row.
pub open spec fn leveled_row_spec(name: Seq<char>, level: u16) -> Seq<Seq<char>> {
    seq![escape_spec(name), decimal_int(level as int)]
}

/// A name-and-level row.
fn leveled_row(name: &str, level: u16) -> (r: Vec<String>)
    ensures
        strings_view(r@) == leveled_row_spec(name@, level),
{
    let mut row: Vec<String> = Vec::new();
    row.push(escape_cell(name));
    row.push(num(level as i64));
    assert(strings_view(row@) =~= leveled_row_spec(name@, level));
    row
}

/// The rows of a list of supernatural powers, in order.
pub open spec fn power_rows_spec(items: Seq<SupernaturalPower>) -> Seq<Seq<Seq<char>>> {
    items.map_values(|p: SupernaturalPower| leveled_row_spec(p.name@, p.level))
}

/// The Characteristic rows of a familiar: those among `cs` it records, in
/// canonical order, each with its signed score.
pub open spec fn familiar_char_rows(labels: Seq<(String, String)>, scores: Seq<(Characteristic, i8)>, cs: Seq<Characteristic>) -> Seq<Seq<Seq<char>>>
    decreases cs.len(),
{
    if cs.len() == 0 {
        Seq::empty()
    } else {
        familiar_char_rows(labels, scores, cs.drop_last()) + match char_entry(scores, cs.last()) {
            Some(v) => seq![seq![label_text(labels, "characteristic-"@ + cs.last().slug_spec()), signed_spec(v as int)]],
            None => Seq::empty(),
        }
    }
}

/// A bullet for `value` under the chrome text for `key`, or nothing when
/// `shown` is false.
pub open spec fn opt_bullet(labels: Seq<(String, String)>, shown: bool, key: Seq<char>, value: Seq<char>) -> Seq<char> {
    if shown { bullet(label_text(labels, key), value) } else { Seq::empty() }
}

/// The familiar's card: its heading, then its name, beast, Might, Size and
/// cords (each only when set), and a blank line.
pub open spec fn familiar_card(labels: Seq<(String, String)>, f: Familiar) -> Seq<char> {
    heading_text(labels, 3, "familiar-label"@)
        + opt_bullet(labels, !blank(f.name@), "identity-name"@, escape_spec(f.name@))
        + opt_bullet(labels, !blank(f.animal@), "familiar-animal-label"@, escape_spec(f.animal@))
        + opt_bullet(labels, f.might is Some, "familiar-might-label"@, realm_text(labels, f.might.unwrap()))
        + opt_bullet(labels, f.size != 0, "familiar-size-label"@, signed_spec(f.size as int))
        + opt_bullet(labels, f.cord_gold != 0, "familiar-cord-gold"@, signed_spec(f.cord_gold as int))
        + opt_bullet(labels, f.cord_silver != 0, "familiar-cord-silver"@, signed_spec(f.cord_silver as int))
        + opt_bullet(labels, f.cord_bronze != 0, "familiar-cord-bronze"@, signed_spec(f.cord_bronze as int))
        + "\n"@
}


/// The chosen Living Conditions: one bullet listing their names, and a blank
/// line; nothing when none is chosen.
pub open spec fn living_block(lrs: &LocalizedRuleset, labels: Seq<(String, String)>, chosen: Seq<Id>) -> Seq<char> {
    if chosen.len() == 0 {
        Seq::empty()
    } else {
        bullet(
            label_text(labels, "living-conditions-label"@),
            join_spec(
                chosen.map_values(|id: Id| escape_spec(name_text(lrs, id@))),
                label_text(labels, "restricted-xp-list-separator"@) + " "@,
            ),
        ) + "\n"@
    }
}

/// The Warping subsection: score, points and (when described) effect, and a
/// blank line; nothing when all three are empty.
pub open spec fn warping_block(labels: Seq<(String, String)>, score: int, points: int, effect: Seq<char>) -> Seq<char> {
    if score != 0 || points != 0 || !blank(effect) {
        heading_text(labels, 3, "warping-label"@)
            + bullet(label_text(labels, "ability-score-label"@), decimal_int(score))
            + bullet(label_text(labels, "warping-points-label"@), decimal_int(points))
            + opt_bullet(labels, !blank(effect), "warping-effect-label"@, escape_spec(effect))
            + "\n"@
    } else {
        Seq::empty()
    }
}

/// One line per Twilight Scar, in order.
pub open spec fn scar_lines(scars: Seq<TwilightScar>) -> Seq<char>
    decreases scars.len(),
{
    if scars.len() == 0 {
        Seq::empty()
    } else {
        scar_lines(scars.drop_last()) + ("- "@ + escape_spec(scars.last().description@) + "\n"@)
    }
}

/// The Twilight Scars subsection; nothing when there is none.
pub open spec fn scars_block(labels: Seq<(String, String)>, scars: Seq<TwilightScar>) -> Seq<char> {
    if scars.len() == 0 {
        Seq::empty()
    } else {
        heading_text(labels, 3, "twilight-scars-label"@) + scar_lines(scars) + "\n"@
    }
}

/// The Decrepitude subsection: score and (when described) effect; nothing
/// when both are empty.
pub open spec fn decrepitude_block(labels: Seq<(String, String)>, score: int, effect: Seq<char>) -> Seq<char> {
    if score != 0 || !blank(effect) {
        heading_text(labels, 3, "decrepitude-label"@)
            + bullet(label_text(labels, "ability-score-label"@), decimal_int(score))
            + opt_bullet(labels, !blank(effect), "decrepitude-effect-label"@, escape_spec(effect))
            + "\n"@
    } else {
        Seq::empty()
    }
}

/// The Characteristics among `cs` that carry aging points, in order, with
/// their points.
pub open spec fn accrued_points(points: Seq<(Characteristic, u8)>, cs: Seq<Characteristic>) -> Seq<(Characteristic, u8)>
    decreases cs.len(),
{
    if cs.len() == 0 {
        Seq::empty()
    } else {
        accrued_points(points, cs.drop_last()) + match char_entry(points, cs.last()) {
            Some(p) => if p != 0 { seq![(cs.last(), p)] } else { Seq::empty() },
            None => Seq::empty(),
        }
    }
}

/// One bullet per accrued Characteristic.
pub open spec fn point_lines(labels: Seq<(String, String)>, accrued: Seq<(Characteristic, u8)>) -> Seq<char>
    decreases accrued.len(),
{
    if accrued.len() == 0 {
        Seq::empty()
    } else {
        point_lines(labels, accrued.drop_last())
            + bullet(label_text(labels, "characteristic-"@ + accrued.last().0.slug_spec()), decimal_int(accrued.last().1 as int))
    }
}

/// The accrued aging points subsection; nothing when no Characteristic
/// carries any.
pub open spec fn aging_points_block(labels: Seq<(String, String)>, points: Seq<(Characteristic, u8)>) -> Seq<char> {
    let accrued = accrued_points(points, all_characteristics());
    if accrued.len() == 0 {
        Seq::empty()
    } else {
        heading_text(labels, 3, "aging-points-heading"@) + point_lines(labels, accrued) + "\n"@
    }
}

/// What the Crisis Table answered for a logged year: the unrolled label when
/// it has not been asked, else the Crisis (with its severity) and the die
/// and total entered; nothing for a year with no Crisis.
pub open spec fn crisis_parts(lrs: &LocalizedRuleset, labels: Seq<(String, String)>, entry: AgingLogEntry) -> Seq<Seq<char>> {
    if !entry.crisis {
        Seq::empty()
    } else {
        match entry.crisis_row {
            None => seq![label_text(labels, "aging-log-crisis-unrolled"@)],
            Some(row) => {
                let named = match entry.crisis_severity {
                    Some(sev) => name_text(lrs, row@) + " ("@ + label_text(labels, "crisis-severity-"@ + sev.slug_spec()) + ")"@,
                    None => name_text(lrs, row@),
                };
                seq![label_text(labels, "crisis-label"@) + ": "@ + named]
                    + (match entry.crisis_die {
                        Some(d) => seq![label_text(labels, "crisis-die-label"@) + ": "@ + decimal_int(d as int)],
                        None => Seq::empty(),
                    })
                    + (match entry.crisis_total {
                        Some(t) => seq![label_text(labels, "crisis-total-label"@) + ": "@ + decimal_int(t as int)],
                        None => Seq::empty(),
                    })
            },
        }
    }
}

/// The parts of a logged year's text: its effect (when any), the die and
/// total entered, and the Crisis.
pub open spec fn entry_parts(lrs: &LocalizedRuleset, labels: Seq<(String, String)>, entry: AgingLogEntry) -> Seq<Seq<char>> {
    (if escape_spec(entry.effect@).len() > 0 { seq![escape_spec(entry.effect@)] } else { Seq::empty() })
        + (match entry.die {
            Some(d) => seq![label_text(labels, "aging-die-label"@) + ": "@ + decimal_int(d as int)],
            None => Seq::empty(),
        })
        + (match entry.total {
            Some(t) => seq![label_text(labels, "export-col-total"@) + ": "@ + decimal_int(t as int)],
            None => Seq::empty(),
        })
        + crisis_parts(lrs, labels, entry)
}

/// A logged year's bullet, keyed by the year when it is known.
pub open spec fn log_line(lrs: &LocalizedRuleset, labels: Seq<(String, String)>, entry: AgingLogEntry) -> Seq<char> {
    let text = join_spec(entry_parts(lrs, labels, entry), " · "@);
    match entry.year {
        Some(y) => "- **"@ + decimal_int(y as int) + "**: "@ + text + "\n"@,
        None => "- "@ + text + "\n"@,
    }
}

/// One bullet per logged year, in order.
pub open spec fn log_lines(lrs: &LocalizedRuleset, labels: Seq<(String, String)>, log: Seq<AgingLogEntry>) -> Seq<char>
    decreases log.len(),
{
    if log.len() == 0 {
        Seq::empty()
    } else {
        log_lines(lrs, labels, log.drop_last()) + log_line(lrs, labels, log.last())
    }
}

/// The aging log subsection; nothing when the log is empty.
pub open spec fn log_block(lrs: &LocalizedRuleset, labels: Seq<(String, String)>, log: Seq<AgingLogEntry>) -> Seq<char> {
    if log.len() == 0 {
        Seq::empty()
    } else {
        heading_text(labels, 3, "aging-log-heading"@) + log_lines(lrs, labels, log) + "\n"@
    }
}

/// The annotation body: Living Conditions, Warping, Twilight Scars,
/// Decrepitude, aging points, aging log.
pub open spec fn annotations_body(e: &Entity, lrs: &LocalizedRuleset, labels: Seq<(String, String)>) -> Seq<char> {
    living_block(lrs, labels, e.living_conditions@)
        + warping_block(labels, warping_score_spec(e, &lrs.ruleset) as int, warping_points_total_spec(e, &lrs.ruleset) as int, e.warping_effect@)
        + scars_block(labels, e.twilight_scars@)
        + decrepitude_block(labels, lrs.ruleset.advancement.score_for_xp_spec(clamp_u32(aging_points_sum(e.aging_points@) as int)) as int, e.decrepitude_effect@)
        + aging_points_block(labels, e.aging_points@)
        + log_block(lrs, labels, e.aging_log@)
}

/// The annotation section: its heading and body; nothing when the body is
/// empty.
pub open spec fn annotations_section(e: &Entity, lrs: &LocalizedRuleset, labels: Seq<(String, String)>) -> Seq<char> {
    let body = annotations_body(e, lrs, labels);
    if body.len() == 0 {
        Seq::empty()
    } else {
        heading_text(labels, 2, "aging-label"@) + body
    }
}


/// The Personality Traits section; nothing when there is none.
pub open spec fn personality_section(labels: Seq<(String, String)>, traits: Seq<PersonalityTrait>) -> Seq<char> {
    if traits.len() == 0 {
        Seq::empty()
    } else {
        heading_text(labels, 2, "personality-label"@) + trait_lines(traits) + "\n"@
    }
}

/// One bullet per Reputation: its type and level, then what it is for.
pub open spec fn reputation_lines(labels: Seq<(String, String)>, reps: Seq<Reputation>) -> Seq<char>
    decreases reps.len(),
{
    if reps.len() == 0 {
        Seq::empty()
    } else {
        reputation_lines(labels, reps.drop_last()) + bullet(
            label_text(labels, "reputation-type-"@ + reps.last().kind.slug_spec()) + " "@ + decimal_int(reps.last().score as int),
            escape_spec(reps.last().content@),
        )
    }
}

/// The Reputations section; nothing when there is none.
pub open spec fn reputations_section(labels: Seq<(String, String)>, reps: Seq<Reputation>) -> Seq<char> {
    if reps.len() == 0 {
        Seq::empty()
    } else {
        heading_text(labels, 2, "reputations-label"@) + reputation_lines(labels, reps) + "\n"@
    }
}

/// The Confidence section: score and points as the type and the entity's
/// Virtues give them; nothing for an unknown type or when both are zero.
pub open spec fn confidence_section(e: &Entity, rs: &Ruleset, labels: Seq<(String, String)>) -> Seq<char> {
    match find(rs.type_profiles@, e.type_id@) {
        None => Seq::empty(),
        Some(p) => {
            let totals = confidence_totals(p.confidence_score, p.confidence_points, e, rs);
            let score = clamp_byte(totals.0);
            let points = clamp_byte(totals.1);
            if score == 0 && points == 0 {
                Seq::empty()
            } else {
                heading_text(labels, 2, "confidence-label"@)
                    + bullet(label_text(labels, "ability-score-label"@), decimal_int(score as int))
                    + bullet(label_text(labels, "export-col-points"@), decimal_int(points as int))
                    + "\n"@
            }
        },
    }
}

/// The supernatural section: effective Might, then the powers; nothing when
/// there is neither.
pub open spec fn supernatural_section(e: &Entity, rs: &Ruleset, labels: Seq<(String, String)>) -> Seq<char> {
    let might = effective_might_spec(e, rs);
    if might is None && e.powers@.len() == 0 {
        Seq::empty()
    } else {
        heading_text(labels, 2, "tab-supernatural"@)
            + (match might {
                Some(m) => bullet(label_text(labels, "supernatural-might-label"@), realm_text(labels, m)) + "\n"@,
                None => Seq::empty(),
            })
            + (if e.powers@.len() == 0 {
                Seq::empty()
            } else {
                heading_text(labels, 3, "supernatural-powers-label"@)
                    + table_spec(seq![label_text(labels, "identity-name"@), label_text(labels, "power-level-label"@)], power_rows_spec(e.powers@))
            })
    }
}

/// The rows of the enchanted devices, in order.
pub open spec fn device_rows_spec(items: Seq<EnchantedDevice>) -> Seq<Seq<Seq<char>>> {
    items.map_values(|d: EnchantedDevice| leveled_row_spec(d.name@, d.level))
}

/// The rows of a talisman's instilled effects, in order.
pub open spec fn effect_rows_spec(items: Seq<TalismanEffect>) -> Seq<Seq<Seq<char>>> {
    items.map_values(|t: TalismanEffect| leveled_row_spec(t.name@, t.level))
}

/// The Longevity Ritual: its source, its bonus (or that none was entered),
/// its focus when described, and a blank line.
pub open spec fn longevity_block(labels: Seq<(String, String)>, r: LongevityRitual) -> Seq<char> {
    heading_text(labels, 3, "longevity-label"@)
        + bullet(label_text(labels, "longevity-source-label"@), label_text(labels, "longevity-source-"@ + r.source.slug_spec()))
        + bullet(label_text(labels, "longevity-bonus-label"@), match r.bonus {
            Some(b) => signed_spec(b as int),
            None => label_text(labels, "longevity-not-entered"@),
        })
        + opt_bullet(labels, !blank(r.focus@), "longevity-focus-label"@, escape_spec(r.focus@))
        + "\n"@
}

/// A talisman's attunement rows, in order.
pub open spec fn attunement_rows(items: Seq<TalismanAttunement>) -> Seq<Seq<Seq<char>>> {
    items.map_values(|a: TalismanAttunement| seq![escape_spec(a.description@), signed_spec(a.bonus as int)])
}

/// The talisman: its description, attunements and instilled effects (each
/// only when it has any); nothing for an untouched one.
pub open spec fn talisman_block(labels: Seq<(String, String)>, t: Talisman) -> Seq<char> {
    let described = !blank(t.description@);
    if !described && t.attunements@.len() == 0 && t.effects@.len() == 0 {
        Seq::empty()
    } else {
        heading_text(labels, 3, "talisman-label"@)
            + (if described {
                bullet(label_text(labels, "talisman-description-label"@), escape_spec(t.description@)) + "\n"@
            } else {
                Seq::empty()
            })
            + (if t.attunements@.len() == 0 {
                Seq::empty()
            } else {
                heading_text(labels, 4, "talisman-attunements-label"@)
                    + table_spec(seq![label_text(labels, "identity-name"@), label_text(labels, "talisman-bonus-label"@)], attunement_rows(t.attunements@))
            })
            + (if t.effects@.len() == 0 {
                Seq::empty()
            } else {
                heading_text(labels, 4, "talisman-effects-label"@)
                    + table_spec(seq![label_text(labels, "identity-name"@), label_text(labels, "talisman-effect-level-label"@)], effect_rows_spec(t.effects@))
            })
    }
}

/// The possessions body: devices, the Longevity Ritual, the talisman, the
/// familiar.
pub open spec fn possessions_body(e: &Entity, labels: Seq<(String, String)>) -> Seq<char> {
    (if e.devices@.len() == 0 {
        Seq::empty()
    } else {
        heading_text(labels, 3, "possessions-devices-label"@)
            + table_spec(seq![label_text(labels, "identity-name"@), label_text(labels, "device-level-label"@)], device_rows_spec(e.devices@))
    })
        + (match e.longevity_ritual {
            Some(r) => longevity_block(labels, r),
            None => Seq::empty(),
        })
        + (match e.talisman {
            Some(t) => talisman_block(labels, t),
            None => Seq::empty(),
        })
        + (match e.familiar {
            Some(f) => familiar_block(labels, f),
            None => Seq::empty(),
        })
}

/// The possessions section: the aura (when any), then the body; nothing when
/// there is neither.
pub open spec fn possessions_section(e: &Entity, labels: Seq<(String, String)>) -> Seq<char> {
    let body = possessions_body(e, labels);
    if e.aura == 0 && body.len() == 0 {
        Seq::empty()
    } else {
        heading_text(labels, 2, "tab-possessions"@)
            + (if e.aura != 0 {
                bullet(label_text(labels, "aura-label"@), signed_spec(e.aura as int)) + "\n"@
            } else {
                Seq::empty()
            })
            + body
    }
}

/// A Might Score as the document shows it: the localized realm, a space, the
/// score.
pub open spec fn realm_text(labels: Seq<(String, String)>, m: MightScore) -> Seq<char> {
    label_text(labels, "realm-"@ + m.realm.slug_spec()) + " "@ + decimal_int(m.score as int)
}

/// The familiar's statblock: its heading, its name, beast, Might, Size and
/// cords (each only when set), a blank line, then its Characteristics,
/// Personality Traits and powers (each only when it has any).
pub open spec fn familiar_block(labels: Seq<(String, String)>, f: Familiar) -> Seq<char> {
    let rows = familiar_char_rows(labels, f.characteristics@, all_characteristics());
    familiar_card(labels, f)
        + (if rows.len() == 0 {
            Seq::empty()
        } else {
            heading_text(labels, 4, "characteristics-title"@)
                + table_spec(seq![label_text(labels, "identity-name"@), label_text(labels, "ability-score-label"@)], rows)
        })
        + (if f.personality_traits@.len() == 0 {
            Seq::empty()
        } else {
            heading_text(labels, 4, "personality-label"@) + trait_lines(f.personality_traits@) + "\n"@
        })
        + (if f.powers@.len() == 0 {
            Seq::empty()
        } else {
            heading_text(labels, 4, "familiar-powers-label"@)
                + table_spec(seq![label_text(labels, "identity-name"@), label_text(labels, "power-level-label"@)], power_rows_spec(f.powers@))
        })
}

fn device_rows(items: &Vec<EnchantedDevice>) -> (r: Vec<Vec<String>>)
    ensures
        r@.len() == items@.len(),
        rows_view(r@) == device_rows_spec(items@),
{
    let mut rows: Vec<Vec<String>> = Vec::new();
    let mut i: usize = 0;
    while i < items.len()
        invariant
            i <= items@.len(),
            rows@.len() == i,
            rows_view(rows@) == device_rows_spec(items@.take(i as int)),
        decreases items.len() - i,
    {
        let ghost before = rows@;
        rows.push(leveled_row(items[i].name.as_str(), items[i].level));
        proof {
            assert(rows_view(rows@) =~= rows_view(before).push(leveled_row_spec(items@[i as int].name@, items@[i as int].level)));
            assert(device_rows_spec(items@.take(i + 1)) =~= device_rows_spec(items@.take(i as int)).push(leveled_row_spec(items@[i as int].name@, items@[i as int].level)));
        }
        i += 1;
    }
    assert(items@.take(items@.len() as int) =~= items@);
    rows
}

fn power_rows(items: &Vec<SupernaturalPower>) -> (r: Vec<Vec<String>>)
    ensures
        r@.len() == items@.len(),
        rows_view(r@) == power_rows_spec(items@),
{
    let mut rows: Vec<Vec<String>> = Vec::new();
    let mut i: usize = 0;
    while i < items.len()
        invariant
            i <= items@.len(),
            rows@.len() == i,
            rows_view(rows@) == power_rows_spec(items@.take(i as int)),
        decreases items.len() - i,
    {
        let ghost before = rows@;
        rows.push(leveled_row(items[i].name.as_str(), items[i].level));
        proof {
            assert(rows_view(rows@) =~= rows_view(before).push(leveled_row_spec(items@[i as int].name@, items@[i as int].level)));
            assert(power_rows_spec(items@.take(i + 1)) =~= power_rows_spec(items@.take(i as int)).push(leveled_row_spec(items@[i as int].name@, items@[i as int].level)));
        }
        i += 1;
    }
    assert(items@.take(items@.len() as int) =~= items@);
    rows
}

fn effect_rows(items: &Vec<TalismanEffect>) -> (r: Vec<Vec<String>>)
    ensures
        r@.len() == items@.len(),
        rows_view(r@) == effect_rows_spec(items@),
{
    let mut rows: Vec<Vec<String>> = Vec::new();
    let mut i: usize = 0;
    while i < items.len()
        invariant
            i <= items@.len(),
            rows@.len() == i,
            rows_view(rows@) == effect_rows_spec(items@.take(i as int)),
        decreases items.len() - i,
    {
        let ghost before = rows@;
        rows.push(leveled_row(items[i].name.as_str(), items[i].level));
        proof {
            assert(rows_view(rows@) =~= rows_view(before).push(leveled_row_spec(items@[i as int].name@, items@[i as int].level)));
            assert(effect_rows_spec(items@.take(i + 1)) =~= effect_rows_spec(items@.take(i as int)).push(leveled_row_spec(items@[i as int].name@, items@[i as int].level)));
        }
        i += 1;
    }
    assert(items@.take(items@.len() as int) =~= items@);
    rows
}

/// The labels a Might Score's text reads.
pub open spec fn realm_reads(m: MightScore) -> Set<(bool, Seq<char>)> {
    key_read("realm-"@ + m.realm.slug_spec())
}

/// The labels the personality section reads.
pub open spec fn personality_reads(traits: Seq<PersonalityTrait>) -> Set<(bool, Seq<char>)> {
    if traits.len() == 0 { Set::empty() } else { key_read("personality-label"@) }
}

/// The chrome keys of the Reputations' audiences.
pub open spec fn reputation_keys(reps: Seq<Reputation>) -> Seq<Seq<char>> {
    reps.map_values(|r: Reputation| "reputation-type-"@ + r.kind.slug_spec())
}

/// The labels the Reputations section reads.
pub open spec fn reputations_reads(reps: Seq<Reputation>) -> Set<(bool, Seq<char>)> {
    if reps.len() == 0 { Set::empty() } else { key_read("reputations-label"@) + keys_of(reputation_keys(reps)) }
}

/// The labels the Confidence section reads.
pub open spec fn confidence_reads(e: &Entity, rs: &Ruleset, labels: Seq<(String, String)>) -> Set<(bool, Seq<char>)> {
    if confidence_section(e, rs, labels).len() == 0 {
        Set::empty()
    } else {
        key_read("confidence-label"@) + key_read("ability-score-label"@) + key_read("export-col-points"@)
    }
}

/// The labels the supernatural section reads.
pub open spec fn supernatural_reads(e: &Entity, rs: &Ruleset) -> Set<(bool, Seq<char>)> {
    let might = effective_might_spec(e, rs);
    if might is None && e.powers@.len() == 0 {
        Set::empty()
    } else {
        key_read("tab-supernatural"@)
            + (match might {
                Some(m) => realm_reads(m) + key_read("supernatural-might-label"@),
                None => Set::empty(),
            })
            + (if e.powers@.len() == 0 {
                Set::empty()
            } else {
                key_read("supernatural-powers-label"@) + key_read("identity-name"@) + key_read("power-level-label"@)
            })
    }
}

/// The labels a Longevity Ritual reads.
pub open spec fn longevity_reads(r: LongevityRitual) -> Set<(bool, Seq<char>)> {
    key_read("longevity-label"@) + key_read("longevity-source-"@ + r.source.slug_spec()) + key_read("longevity-source-label"@)
        + (if r.bonus is None { key_read("longevity-not-entered"@) } else { Set::empty() })
        + key_read("longevity-bonus-label"@)
        + (if !blank(r.focus@) { key_read("longevity-focus-label"@) } else { Set::empty() })
}

/// The labels a talisman reads.
pub open spec fn talisman_reads(t: Talisman) -> Set<(bool, Seq<char>)> {
    let described = !blank(t.description@);
    if !described && t.attunements@.len() == 0 && t.effects@.len() == 0 {
        Set::empty()
    } else {
        key_read("talisman-label"@)
            + (if described { key_read("talisman-description-label"@) } else { Set::empty() })
            + (if t.attunements@.len() == 0 { Set::empty() } else {
                key_read("talisman-attunements-label"@) + key_read("identity-name"@) + key_read("talisman-bonus-label"@)
            })
            + (if t.effects@.len() == 0 { Set::empty() } else {
                key_read("talisman-effects-label"@) + key_read("identity-name"@) + key_read("talisman-effect-level-label"@)
            })
    }
}

/// The labels a familiar's card reads.
pub open spec fn familiar_card_reads(f: Familiar) -> Set<(bool, Seq<char>)> {
    key_read("familiar-label"@)
        + (if !blank(f.name@) { key_read("identity-name"@) } else { Set::empty() })
        + (if !blank(f.animal@) { key_read("familiar-animal-label"@) } else { Set::empty() })
        + (match f.might { Some(m) => realm_reads(m) + key_read("familiar-might-label"@), None => Set::empty() })
        + (if f.size != 0 { key_read("familiar-size-label"@) } else { Set::empty() })
        + (if f.cord_gold != 0 { key_read("familiar-cord-gold"@) } else { Set::empty() })
        + (if f.cord_silver != 0 { key_read("familiar-cord-silver"@) } else { Set::empty() })
        + (if f.cord_bronze != 0 { key_read("familiar-cord-bronze"@) } else { Set::empty() })
}

/// The chrome keys of a familiar's recorded Characteristics among `cs`.
pub open spec fn familiar_char_reads(scores: Seq<(Characteristic, i8)>, cs: Seq<Characteristic>) -> Set<(bool, Seq<char>)>
    decreases cs.len(),
{
    if cs.len() == 0 {
        Set::empty()
    } else {
        familiar_char_reads(scores, cs.drop_last()) + match char_entry(scores, cs.last()) {
            Some(v) => key_read("characteristic-"@ + cs.last().slug_spec()),
            None => Set::empty(),
        }
    }
}

/// The labels a familiar reads.
pub open spec fn familiar_reads(labels: Seq<(String, String)>, f: Familiar) -> Set<(bool, Seq<char>)> {
    familiar_card_reads(f) + familiar_char_reads(f.characteristics@, all_characteristics())
        + (if familiar_char_rows(labels, f.characteristics@, all_characteristics()).len() == 0 { Set::empty() } else {
            key_read("characteristics-title"@) + key_read("identity-name"@) + key_read("ability-score-label"@)
        })
        + (if f.personality_traits@.len() == 0 { Set::empty() } else { key_read("personality-label"@) })
        + (if f.powers@.len() == 0 { Set::empty() } else {
            key_read("familiar-powers-label"@) + key_read("identity-name"@) + key_read("power-level-label"@)
        })
}

/// The labels the possessions section reads.
pub open spec fn possessions_reads(e: &Entity, labels: Seq<(String, String)>) -> Set<(bool, Seq<char>)> {
    (if e.devices@.len() == 0 { Set::empty() } else {
        key_read("possessions-devices-label"@) + key_read("identity-name"@) + key_read("device-level-label"@)
    })
        + (match e.longevity_ritual { Some(r) => longevity_reads(r), None => Set::empty() })
        + (match e.talisman { Some(t) => talisman_reads(t), None => Set::empty() })
        + (match e.familiar { Some(f) => familiar_reads(labels, f), None => Set::empty() })
        + (if e.aura == 0 && possessions_body(e, labels).len() == 0 { Set::empty() } else {
            key_read("tab-possessions"@) + if e.aura != 0 { key_read("aura-label"@) } else { Set::empty() }
        })
}

/// The labels the Living Conditions read.
pub open spec fn living_reads(chosen: Seq<Id>) -> Set<(bool, Seq<char>)> {
    if chosen.len() == 0 { Set::empty() } else {
        ids_of(id_texts(chosen)) + key_read("restricted-xp-list-separator"@) + key_read("living-conditions-label"@)
    }
}

/// The labels the Warping block reads.
pub open spec fn warping_reads(score: int, points: int, effect: Seq<char>) -> Set<(bool, Seq<char>)> {
    if score != 0 || points != 0 || !blank(effect) {
        key_read("warping-label"@) + key_read("ability-score-label"@) + key_read("warping-points-label"@)
            + if !blank(effect) { key_read("warping-effect-label"@) } else { Set::empty() }
    } else {
        Set::empty()
    }
}

/// The labels the Twilight scars read.
pub open spec fn scars_reads(scars: Seq<TwilightScar>) -> Set<(bool, Seq<char>)> {
    if scars.len() == 0 { Set::empty() } else { key_read("twilight-scars-label"@) }
}

/// The labels the Decrepitude block reads.
pub open spec fn decrepitude_reads(score: int, effect: Seq<char>) -> Set<(bool, Seq<char>)> {
    if score != 0 || !blank(effect) {
        key_read("decrepitude-label"@) + key_read("ability-score-label"@)
            + if !blank(effect) { key_read("decrepitude-effect-label"@) } else { Set::empty() }
    } else {
        Set::empty()
    }
}

/// The chrome keys of accrued aging points.
pub open spec fn point_keys(accrued: Seq<(Characteristic, u8)>) -> Seq<Seq<char>> {
    accrued.map_values(|a: (Characteristic, u8)| "characteristic-"@ + a.0.slug_spec())
}

/// The labels the aging points read.
pub open spec fn aging_points_reads(points: Seq<(Characteristic, u8)>) -> Set<(bool, Seq<char>)> {
    let accrued = accrued_points(points, all_characteristics());
    if accrued.len() == 0 { Set::empty() } else { key_read("aging-points-heading"@) + keys_of(point_keys(accrued)) }
}

/// The labels an aging crisis reads.
pub open spec fn crisis_reads(entry: AgingLogEntry) -> Set<(bool, Seq<char>)> {
    if !entry.crisis {
        Set::empty()
    } else {
        match entry.crisis_row {
            None => key_read("aging-log-crisis-unrolled"@),
            Some(row) => id_read(row@)
                + (match entry.crisis_severity { Some(sev) => key_read("crisis-severity-"@ + sev.slug_spec()), None => Set::empty() })
                + key_read("crisis-label"@)
                + (if entry.crisis_die is Some { key_read("crisis-die-label"@) } else { Set::empty() })
                + (if entry.crisis_total is Some { key_read("crisis-total-label"@) } else { Set::empty() }),
        }
    }
}

/// The labels an aging log entry reads.
pub open spec fn entry_reads(entry: AgingLogEntry) -> Set<(bool, Seq<char>)> {
    (if entry.die is Some { key_read("aging-die-label"@) } else { Set::empty() })
        + (if entry.total is Some { key_read("export-col-total"@) } else { Set::empty() })
        + crisis_reads(entry)
}

/// The labels the entries of an aging log read.
pub open spec fn log_reads(log: Seq<AgingLogEntry>) -> Set<(bool, Seq<char>)>
    decreases log.len(),
{
    if log.len() == 0 { Set::empty() } else { log_reads(log.drop_last()) + entry_reads(log.last()) }
}

/// The labels the aging log block reads.
pub open spec fn log_block_reads(log: Seq<AgingLogEntry>) -> Set<(bool, Seq<char>)> {
    if log.len() == 0 { Set::empty() } else { key_read("aging-log-heading"@) + log_reads(log) }
}

/// The labels the annotations section reads.
pub open spec fn annotations_reads(e: &Entity, lrs: &LocalizedRuleset, labels: Seq<(String, String)>) -> Set<(bool, Seq<char>)> {
    living_reads(e.living_conditions@)
        + warping_reads(warping_score_spec(e, &lrs.ruleset) as int, warping_points_total_spec(e, &lrs.ruleset) as int, e.warping_effect@)
        + scars_reads(e.twilight_scars@)
        + decrepitude_reads(lrs.ruleset.advancement.score_for_xp_spec(clamp_u32(aging_points_sum(e.aging_points@) as int)) as int, e.decrepitude_effect@)
        + aging_points_reads(e.aging_points@)
        + log_block_reads(e.aging_log@)
        + if annotations_body(e, lrs, labels).len() == 0 { Set::empty() } else { key_read("aging-label"@) }
}

impl<'a> Doc<'a> {
    /// The headers of a name-and-level table.
    fn leveled_headers(&mut self, level_key: &str) -> (r: Vec<String>)
        requires
            old(self).wf(),
        ensures
            final(self).wf(),
            final(self).same_inputs(old(self)),
            strings_view(r@) == seq![label_text(old(self).labels@, "identity-name"@), label_text(old(self).labels@, level_key@)],
            final(self).read@ == old(self).read@ + key_read("identity-name"@) + key_read(level_key@),
    {
        let mut headers: Vec<String> = Vec::new();
        headers.push(self.label("identity-name"));
        headers.push(self.label(level_key));
        assert(strings_view(headers@) =~= seq![label_text(old(self).labels@, "identity-name"@), label_text(old(self).labels@, level_key@)]);
        assert(self.read@ =~= old(self).read@ + key_read("identity-name"@) + key_read(level_key@));
        headers
    }

    /// The named Personality Traits and their signed values.
    pub fn write_personality_traits(&mut self, out: &mut String)
        requires
            old(self).wf(),
        ensures
            final(self).wf(),
            final(self).same_inputs(old(self)),
            final(out)@ == old(out)@ + personality_section(old(self).labels@, old(self).entity.personality_traits@),
            final(self).read@ == old(self).read@ + personality_reads(old(self).entity.personality_traits@),
    {
        let ghost labels = self.labels@;
        if self.entity.personality_traits.len() == 0 {
            assert(out@ =~= old(out)@ + personality_section(labels, self.entity.personality_traits@));
            assert(self.read@ =~= old(self).read@ + personality_reads(self.entity.personality_traits@));
            return;
        }
        self.section(out, 2, "personality-label");
        write_traits(out, &self.entity.personality_traits);
        proof {
            let h = heading_text(labels, 2, "personality-label"@);
            let t = trait_lines(self.entity.personality_traits@);
            lemma_concat_associative(old(out)@, h, t);
            lemma_concat_associative(old(out)@, h + t, "\n"@);
        }
        assert(self.read@ =~= old(self).read@ + personality_reads(self.entity.personality_traits@));
    }

    /// The starting Reputations: audience, level, and what each is for.
    pub fn write_reputations(&mut self, out: &mut String)
        requires
            old(self).wf(),
        ensures
            final(self).wf(),
            final(self).same_inputs(old(self)),
            final(out)@ == old(out)@ + reputations_section(old(self).labels@, old(self).entity.reputations@),
            final(self).read@ == old(self).read@ + reputations_reads(old(self).entity.reputations@),
    {
        let ghost labels = self.labels@;
        let e = self.entity;
        if e.reputations.len() == 0 {
            assert(out@ =~= old(out)@ + reputations_section(labels, e.reputations@));
            assert(reputation_keys(e.reputations@).take(e.reputations@.len() as int) =~= reputation_keys(e.reputations@));
        assert(self.read@ =~= old(self).read@ + reputations_reads(self.entity.reputations@));
            return;
        }
        self.section(out, 2, "reputations-label");
        let ghost head = out@;
        let mut i: usize = 0;
        proof {
            assert(reputation_keys(e.reputations@).take(0) =~= Seq::<Seq<char>>::empty());
            assert(self.read@ =~= old(self).read@ + key_read("reputations-label"@) + keys_of(reputation_keys(e.reputations@).take(0)));
        }
        while i < e.reputations.len()
            invariant
                self.wf(),
                self.same_inputs(old(self)),
                labels == self.labels@,
                e == self.entity,
                i <= e.reputations@.len(),
                out@ == head + reputation_lines(labels, e.reputations@.take(i as int)),
                self.read@ == old(self).read@ + key_read("reputations-label"@) + keys_of(reputation_keys(e.reputations@).take(i as int)),
            decreases e.reputations.len() - i,
        {
            proof {
                assert(e.reputations@.take(i + 1).drop_last() =~= e.reputations@.take(i as int));
            }
            let ghost before = out@;
            let r = &e.reputations[i];
            let mut heading = self.label2("reputation-type-", r.kind.slug());
            heading.append(" ");
            let n = num(r.score as i64);
            heading.append(n.as_str());
            let content = escape_cell(r.content.as_str());
            field(out, heading.as_str(), content.as_str());
            proof {
                let line = bullet(label_text(labels, "reputation-type-"@ + r.kind.slug_spec()) + " "@ + decimal_int(r.score as int), escape_spec(r.content@));
                assert(out@ =~= before + line);
                lemma_concat_associative(head, reputation_lines(labels, e.reputations@.take(i as int)), line);
            }
            proof {
                lemma_keys_of_step(reputation_keys(e.reputations@), i as int);
                assert(reputation_keys(e.reputations@)[i as int] == "reputation-type-"@ + r.kind.slug_spec());
                assert(self.read@ =~= old(self).read@ + key_read("reputations-label"@) + keys_of(reputation_keys(e.reputations@).take(i + 1)));
            }
            i += 1;
        }
        assert(e.reputations@.take(e.reputations@.len() as int) =~= e.reputations@);
        out.append("\n");
        proof {
            let h = heading_text(labels, 2, "reputations-label"@);
            let t = reputation_lines(labels, e.reputations@);
            lemma_concat_associative(old(out)@, h, t);
            lemma_concat_associative(old(out)@, h + t, "\n"@);
        }
        assert(reputation_keys(e.reputations@).take(e.reputations@.len() as int) =~= reputation_keys(e.reputations@));
        assert(self.read@ =~= old(self).read@ + reputations_reads(self.entity.reputations@));
    }

    /// The derived Confidence Score and Points; absent for an unknown type or
    /// one with neither.
    pub fn write_confidence(&mut self, out: &mut String)
        requires
            old(self).wf(),
        ensures
            final(self).wf(),
            final(self).same_inputs(old(self)),
            final(out)@ == old(out)@ + confidence_section(old(self).entity, &old(self).ruleset.ruleset, old(self).labels@),
            final(self).read@ == old(self).read@ + confidence_reads(old(self).entity, &old(self).ruleset.ruleset, old(self).labels@),
    {
        let ghost labels = self.labels@;
        let profile = match self.rules().profile(self.entity.type_id.as_str()) {
            Some(p) => p,
            None => {
                assert(out@ =~= old(out)@ + confidence_section(self.entity, &self.ruleset.ruleset, labels));
                assert(self.read@ =~= old(self).read@ + confidence_reads(self.entity, &self.ruleset.ruleset, self.labels@));
                return;
            },
        };
        let c = confidence(profile.confidence_score, profile.confidence_points, self.entity, self.rules());
        if c.score == 0 && c.points == 0 {
            assert(out@ =~= old(out)@ + confidence_section(self.entity, &self.ruleset.ruleset, labels));
            assert(self.read@ =~= old(self).read@ + confidence_reads(self.entity, &self.ruleset.ruleset, self.labels@));
            return;
        }
        let ghost start = out@;
        self.section(out, 2, "confidence-label");
        let ghost mut acc = heading_text(labels, 2, "confidence-label"@);
        let s = num(c.score as i64);
        self.labelled(out, "ability-score-label", s.as_str());
        proof {
            let piece = bullet(label_text(labels, "ability-score-label"@), decimal_int(c.score as int));
            lemma_concat_associative(start, acc, piece);
            acc = acc + piece;
        }
        let p = num(c.points as i64);
        self.labelled(out, "export-col-points", p.as_str());
        proof {
            let piece = bullet(label_text(labels, "export-col-points"@), decimal_int(c.points as int));
            lemma_concat_associative(start, acc, piece);
            acc = acc + piece;
        }
        out.append("\n");
        proof {
            lemma_concat_associative(start, acc, "\n"@);
        }
        assert(self.read@ =~= old(self).read@ + confidence_reads(self.entity, &self.ruleset.ruleset, self.labels@));
    }

    /// A supernatural being's effective Might and the powers it holds.
    pub fn write_supernatural(&mut self, out: &mut String)
        requires
            old(self).wf(),
        ensures
            final(self).wf(),
            final(self).same_inputs(old(self)),
            final(out)@ == old(out)@ + supernatural_section(old(self).entity, &old(self).ruleset.ruleset, old(self).labels@),
            final(self).read@ == old(self).read@ + supernatural_reads(old(self).entity, &old(self).ruleset.ruleset),
    {
        let ghost labels = self.labels@;
        let might = effective_might(self.entity, self.rules());
        let rows = power_rows(&self.entity.powers);
        if might.is_none() && rows.len() == 0 {
            assert(out@ =~= old(out)@ + supernatural_section(self.entity, &self.ruleset.ruleset, labels));
            assert(self.read@ =~= old(self).read@ + supernatural_reads(self.entity, &self.ruleset.ruleset));
            return;
        }
        let ghost start = out@;
        self.section(out, 2, "tab-supernatural");
        let ghost h = heading_text(labels, 2, "tab-supernatural"@);
        let ghost mid = out@;
        match might {
            Some(m) => {
                let v = self.realm_score(&m);
                self.labelled(out, "supernatural-might-label", v.as_str());
                out.append("\n");
            },
            None => {},
        }
        let ghost might_part = match might {
            Some(m) => bullet(label_text(labels, "supernatural-might-label"@), realm_text(labels, m)) + "\n"@,
            None => Seq::empty(),
        };
        assert(out@ =~= mid + might_part);
        proof {
            lemma_concat_associative(start, h, might_part);
        }
        let ghost after = out@;
        if rows.len() == 0 {
            assert(out@ =~= start + supernatural_section(self.entity, &self.ruleset.ruleset, labels));
            assert(self.read@ =~= old(self).read@ + supernatural_reads(self.entity, &self.ruleset.ruleset));
            return;
        }
        self.section(out, 3, "supernatural-powers-label");
        let headers = self.leveled_headers("power-level-label");
        table(out, &headers, &rows);
        proof {
            let powers = heading_text(labels, 3, "supernatural-powers-label"@) + table_spec(strings_view(headers@), rows_view(rows@));
            lemma_concat_associative(after, heading_text(labels, 3, "supernatural-powers-label"@), table_spec(strings_view(headers@), rows_view(rows@)));
            lemma_concat_associative(start, h + might_part, powers);
        }
        assert(self.read@ =~= old(self).read@ + supernatural_reads(self.entity, &self.ruleset.ruleset));
    }

    /// The magical possessions: the aura, enchanted devices, the Longevity
    /// Ritual, the talisman and the familiar.
    #[verifier::rlimit(100)]
    #[verifier::spinoff_prover]
    pub fn write_magic_items(&mut self, out: &mut String)
        requires
            old(self).wf(),
        ensures
            final(self).wf(),
            final(self).same_inputs(old(self)),
            final(out)@ == old(out)@ + possessions_section(old(self).entity, old(self).labels@),
            final(self).read@ == old(self).read@ + possessions_reads(old(self).entity, old(self).labels@),
    {
        let ghost labels = self.labels@;
        let e = self.entity;
        let mut body = String::new();
        let devices = device_rows(&e.devices);
        if devices.len() > 0 {
            self.section(&mut body, 3, "possessions-devices-label");
            let headers = self.leveled_headers("device-level-label");
            table(&mut body, &headers, &devices);
        }
        assert(body@ =~= (if e.devices@.len() == 0 {
            Seq::empty()
        } else {
            heading_text(labels, 3, "possessions-devices-label"@)
                + table_spec(seq![label_text(labels, "identity-name"@), label_text(labels, "device-level-label"@)], device_rows_spec(e.devices@))
        }));
        self.write_longevity(&mut body);
        self.write_talisman(&mut body);
        self.write_familiar(&mut body);
        assert(body@ == possessions_body(e, labels));
        if e.aura == 0 && body.as_str().is_empty() {
            assert(self.read@ =~= old(self).read@ + possessions_reads(self.entity, self.labels@));
            return;
        }
        let ghost start = out@;
        self.section(out, 2, "tab-possessions");
        let ghost h = heading_text(labels, 2, "tab-possessions"@);
        let ghost mid = out@;
        if e.aura != 0 {
            let a = signed(e.aura as i64);
            self.labelled(out, "aura-label", a.as_str());
            out.append("\n");
        }
        let ghost aura_part = if e.aura != 0 {
            bullet(label_text(labels, "aura-label"@), signed_spec(e.aura as int)) + "\n"@
        } else {
            Seq::empty()
        };
        assert(out@ =~= mid + aura_part);
        proof {
            lemma_concat_associative(start, h, aura_part);
        }
        out.append(body.as_str());
        proof {
            lemma_concat_associative(start, h + aura_part, body@);
        }
        assert(self.read@ =~= old(self).read@ + possessions_reads(self.entity, self.labels@));
    }

    /// The Longevity Ritual: its source, its bonus (or that none was
    /// entered), and its focus.
    fn write_longevity(&mut self, out: &mut String)
        requires
            old(self).wf(),
        ensures
            final(self).wf(),
            final(self).same_inputs(old(self)),
            final(out)@ == old(out)@ + match old(self).entity.longevity_ritual {
                Some(r) => longevity_block(old(self).labels@, r),
                None => Seq::empty(),
            },
            final(self).read@ == old(self).read@ + match old(self).entity.longevity_ritual { Some(r) => longevity_reads(r), None => Set::empty() },
    {
        let ghost labels = self.labels@;
        let ritual = match &self.entity.longevity_ritual {
            Some(r) => r,
            None => {
                assert(out@ =~= old(out)@ + Seq::<char>::empty());
                assert(self.read@ =~= old(self).read@ + match self.entity.longevity_ritual { Some(r) => longevity_reads(r), None => Set::empty() });
                return;
            },
        };
        let ghost start = out@;
        self.section(out, 3, "longevity-label");
        let ghost mut acc = heading_text(labels, 3, "longevity-label"@);
        let source = self.label2("longevity-source-", ritual.source.slug());
        self.labelled(out, "longevity-source-label", source.as_str());
        proof {
            let piece = bullet(label_text(labels, "longevity-source-label"@), label_text(labels, "longevity-source-"@ + ritual.source.slug_spec()));
            lemma_concat_associative(start, acc, piece);
            acc = acc + piece;
        }
        let bonus = match ritual.bonus {
            Some(b) => signed(b as i64),
            None => self.label("longevity-not-entered"),
        };
        self.labelled(out, "longevity-bonus-label", bonus.as_str());
        proof {
            let piece = bullet(label_text(labels, "longevity-bonus-label"@), match ritual.bonus {
                Some(b) => signed_spec(b as int),
                None => label_text(labels, "longevity-not-entered"@),
            });
            lemma_concat_associative(start, acc, piece);
            acc = acc + piece;
        }
        if !is_blank(ritual.focus.as_str()) {
            let f = escape_cell(ritual.focus.as_str());
            self.labelled(out, "longevity-focus-label", f.as_str());
        }
        proof {
            let piece = opt_bullet(labels, !blank(ritual.focus@), "longevity-focus-label"@, escape_spec(ritual.focus@));
            lemma_concat_associative(start, acc, piece);
            acc = acc + piece;
        }
        out.append("\n");
        proof {
            lemma_concat_associative(start, acc, "\n"@);
        }
        assert(self.read@ =~= old(self).read@ + match self.entity.longevity_ritual { Some(r) => longevity_reads(r), None => Set::empty() });
    }

    /// The talisman: its description, its attunements, and its instilled
    /// effects; nothing for an untouched one.
    fn write_talisman(&mut self, out: &mut String)
        requires
            old(self).wf(),
        ensures
            final(self).wf(),
            final(self).same_inputs(old(self)),
            final(out)@ == old(out)@ + match old(self).entity.talisman {
                Some(t) => talisman_block(old(self).labels@, t),
                None => Seq::empty(),
            },
            final(self).read@ == old(self).read@ + match old(self).entity.talisman { Some(t) => talisman_reads(t), None => Set::empty() },
    {
        let ghost labels = self.labels@;
        let talisman = match &self.entity.talisman {
            Some(t) => t,
            None => {
                assert(out@ =~= old(out)@ + Seq::<char>::empty());
                assert(self.read@ =~= old(self).read@ + match self.entity.talisman { Some(t) => talisman_reads(t), None => Set::empty() });
                return;
            },
        };
        let mut attunements: Vec<Vec<String>> = Vec::new();
        let mut i: usize = 0;
        while i < talisman.attunements.len()
            invariant
                i <= talisman.attunements@.len(),
                rows_view(attunements@) == attunement_rows(talisman.attunements@.take(i as int)),
            decreases talisman.attunements.len() - i,
        {
            let a = &talisman.attunements[i];
            let mut row: Vec<String> = Vec::new();
            row.push(escape_cell(a.description.as_str()));
            row.push(signed(a.bonus as i64));
            let ghost before = rows_view(attunements@);
            attunements.push(row);
            proof {
                let x = seq![escape_spec(a.description@), signed_spec(a.bonus as int)];
                assert(strings_view(row@) =~= x);
                assert(rows_view(attunements@) =~= before.push(x));
                assert(attunement_rows(talisman.attunements@.take(i + 1)) =~= attunement_rows(talisman.attunements@.take(i as int)).push(x));
            }
            i += 1;
        }
        assert(talisman.attunements@.take(talisman.attunements@.len() as int) =~= talisman.attunements@);
        let effects = effect_rows(&talisman.effects);
        let described = !is_blank(talisman.description.as_str());
        if !described && attunements.len() == 0 && effects.len() == 0 {
            assert(out@ =~= old(out)@ + talisman_block(labels, *talisman));
            assert(self.read@ =~= old(self).read@ + match self.entity.talisman { Some(t) => talisman_reads(t), None => Set::empty() });
            return;
        }
        let ghost start = out@;
        self.section(out, 3, "talisman-label");
        let ghost h = heading_text(labels, 3, "talisman-label"@);
        let ghost s1 = out@;
        if described {
            let identity = escape_cell(talisman.description.as_str());
            self.labelled(out, "talisman-description-label", identity.as_str());
            out.append("\n");
        }
        let ghost d = if described {
            bullet(label_text(labels, "talisman-description-label"@), escape_spec(talisman.description@)) + "\n"@
        } else {
            Seq::empty()
        };
        assert(out@ =~= s1 + d);
        proof {
            lemma_concat_associative(start, h, d);
        }
        let ghost s2 = out@;
        if attunements.len() > 0 {
            self.section(out, 4, "talisman-attunements-label");
            let mut headers: Vec<String> = Vec::new();
            headers.push(self.label("identity-name"));
            headers.push(self.label("talisman-bonus-label"));
            assert(strings_view(headers@) =~= seq![label_text(labels, "identity-name"@), label_text(labels, "talisman-bonus-label"@)]);
            table(out, &headers, &attunements);
        }
        let ghost at = if talisman.attunements@.len() == 0 {
            Seq::empty()
        } else {
            heading_text(labels, 4, "talisman-attunements-label"@)
                + table_spec(seq![label_text(labels, "identity-name"@), label_text(labels, "talisman-bonus-label"@)], attunement_rows(talisman.attunements@))
        };
        assert(out@ =~= s2 + at);
        proof {
            lemma_concat_associative(start, h + d, at);
        }
        let ghost s3 = out@;
        if effects.len() > 0 {
            self.section(out, 4, "talisman-effects-label");
            let headers = self.leveled_headers("talisman-effect-level-label");
            table(out, &headers, &effects);
        }
        let ghost ef = if talisman.effects@.len() == 0 {
            Seq::empty()
        } else {
            heading_text(labels, 4, "talisman-effects-label"@)
                + table_spec(seq![label_text(labels, "identity-name"@), label_text(labels, "talisman-effect-level-label"@)], effect_rows_spec(talisman.effects@))
        };
        assert(out@ =~= s3 + ef);
        proof {
            lemma_concat_associative(start, h + d + at, ef);
        }
        assert(self.read@ =~= old(self).read@ + match self.entity.talisman { Some(t) => talisman_reads(t), None => Set::empty() });
    }

    /// The familiar's statblock: name, beast, Might, Size, the cords, its
    /// Characteristics, Personality Traits and powers.
    #[verifier::rlimit(100)]
    #[verifier::spinoff_prover]
    fn write_familiar(&mut self, out: &mut String)
        requires
            old(self).wf(),
        ensures
            final(self).wf(),
            final(self).same_inputs(old(self)),
            final(out)@ == old(out)@ + match old(self).entity.familiar {
                Some(f) => familiar_block(old(self).labels@, f),
                None => Seq::empty(),
            },
            final(self).read@ == old(self).read@ + match old(self).entity.familiar { Some(f) => familiar_reads(old(self).labels@, f), None => Set::empty() },
    {
        let ghost labels = self.labels@;
        let ghost start = out@;
        let familiar = match &self.entity.familiar {
            Some(f) => f,
            None => {
                assert(self.read@ =~= old(self).read@ + match self.entity.familiar { Some(f) => familiar_reads(self.labels@, f), None => Set::empty() });
                return;
            },
        };
        self.write_familiar_card(out, familiar);
        let ghost card = out@;
        let all = Characteristic::all();
        let mut rows: Vec<Vec<String>> = Vec::new();
        let mut k: usize = 0;
        let ghost read_c = self.read@;
        proof {
            assert(all@.take(0) =~= Seq::<Characteristic>::empty());
            assert(self.read@ =~= read_c + familiar_char_reads(familiar.characteristics@, all@.take(0)));
        }
        while k < all.len()
            invariant
                self.wf(),
                self.same_inputs(old(self)),
                labels == self.labels@,
                all@ == all_characteristics(),
                k <= all@.len(),
                rows_view(rows@) == familiar_char_rows(labels, familiar.characteristics@, all@.take(k as int)),
                self.read@ == read_c + familiar_char_reads(familiar.characteristics@, all@.take(k as int)),
            decreases all.len() - k,
        {
            proof {
                assert(all@.take(k + 1).drop_last() =~= all@.take(k as int));
            }
            let c = all[k];
            let ghost before = rows_view(rows@);
            match crate::catalog::char_get(&familiar.characteristics, c) {
                Some(score) => {
                    let mut row: Vec<String> = Vec::new();
                    row.push(self.label2("characteristic-", c.slug()));
                    row.push(signed(score as i64));
                    rows.push(row);
                    proof {
                        assert(rows_view(rows@) =~= before.push(strings_view(row@)));
                        assert(strings_view(row@) =~= seq![label_text(labels, "characteristic-"@ + c.slug_spec()), signed_spec(score as int)]);
                    }
                },
                None => {
                    assert(rows_view(rows@) =~= before);
                },
            }
            proof {
                assert(all@.take(k + 1).drop_last() =~= all@.take(k as int));
                assert(self.read@ =~= read_c + familiar_char_reads(familiar.characteristics@, all@.take(k + 1)));
            }
            k += 1;
        }
        proof {
            assert(all@.take(all@.len() as int) =~= all@);
        }
        let ghost rows_part = if rows@.len() == 0 {
            Seq::empty()
        } else {
            heading_text(labels, 4, "characteristics-title"@)
                + table_spec(seq![label_text(labels, "identity-name"@), label_text(labels, "ability-score-label"@)], rows_view(rows@))
        };
        if rows.len() > 0 {
            self.section(out, 4, "characteristics-title");
            let mut headers: Vec<String> = Vec::new();
            headers.push(self.label("identity-name"));
            headers.push(self.label("ability-score-label"));
            assert(strings_view(headers@) =~= seq![label_text(labels, "identity-name"@), label_text(labels, "ability-score-label"@)]);
            table(out, &headers, &rows);
        }
        assert(out@ == card + rows_part);
        let ghost after_rows = out@;
        let ghost traits_part = if familiar.personality_traits@.len() == 0 {
            Seq::empty()
        } else {
            heading_text(labels, 4, "personality-label"@) + trait_lines(familiar.personality_traits@) + "\n"@
        };
        if familiar.personality_traits.len() > 0 {
            self.section(out, 4, "personality-label");
            write_traits(out, &familiar.personality_traits);
        }
        assert(out@ =~= after_rows + traits_part);
        let ghost after_traits = out@;
        let powers = power_rows(&familiar.powers);
        let ghost powers_part = if familiar.powers@.len() == 0 {
            Seq::empty()
        } else {
            heading_text(labels, 4, "familiar-powers-label"@)
                + table_spec(seq![label_text(labels, "identity-name"@), label_text(labels, "power-level-label"@)], power_rows_spec(familiar.powers@))
        };
        if powers.len() > 0 {
            self.section(out, 4, "familiar-powers-label");
            let headers = self.leveled_headers("power-level-label");
            table(out, &headers, &powers);
        }
        assert(out@ =~= after_traits + powers_part);
        proof {
            let card_text = familiar_card(labels, *familiar);
            lemma_concat_associative(start, card_text, rows_part);
            lemma_concat_associative(start, card_text + rows_part, traits_part);
            lemma_concat_associative(start, card_text + rows_part + traits_part, powers_part);
        }
        assert(out@ == start + familiar_block(labels, *familiar));
        assert(self.read@ =~= old(self).read@ + match self.entity.familiar { Some(f) => familiar_reads(self.labels@, f), None => Set::empty() });
    }

    /// The familiar's card: its heading, name, beast, Might, Size and cords,
    /// each only when set, and a blank line.
    #[verifier::rlimit(100)]
    #[verifier::spinoff_prover]
    fn write_familiar_card(&mut self, out: &mut String, familiar: &Familiar)
        requires
            old(self).wf(),
        ensures
            final(self).wf(),
            final(self).same_inputs(old(self)),
            final(out)@ == old(out)@ + familiar_card(old(self).labels@, *familiar),
            final(self).read@ == old(self).read@ + familiar_card_reads(*familiar),
    {
        let ghost labels = self.labels@;
        let ghost start = out@;
        self.section(out, 3, "familiar-label");
        let ghost mut acc = heading_text(labels, 3, "familiar-label"@);
        let ghost piece = opt_bullet(labels, !blank(familiar.name@), "identity-name"@, escape_spec(familiar.name@));
        if !is_blank(familiar.name.as_str()) {
            let n = escape_cell(familiar.name.as_str());
            self.labelled(out, "identity-name", n.as_str());
        }
        proof {
            lemma_concat_associative(start, acc, piece);
            acc = acc + piece;
        }
        let ghost piece = opt_bullet(labels, !blank(familiar.animal@), "familiar-animal-label"@, escape_spec(familiar.animal@));
        if !is_blank(familiar.animal.as_str()) {
            let a = escape_cell(familiar.animal.as_str());
            self.labelled(out, "familiar-animal-label", a.as_str());
        }
        proof {
            lemma_concat_associative(start, acc, piece);
            acc = acc + piece;
        }
        let ghost piece = opt_bullet(labels, familiar.might is Some, "familiar-might-label"@, realm_text(labels, familiar.might.unwrap()));
        match familiar.might {
            Some(m) => {
                let v = self.realm_score(&m);
                self.labelled(out, "familiar-might-label", v.as_str());
            },
            None => {},
        }
        proof {
            lemma_concat_associative(start, acc, piece);
            acc = acc + piece;
        }
        let ghost piece = opt_bullet(labels, familiar.size != 0, "familiar-size-label"@, signed_spec(familiar.size as int));
        if familiar.size != 0 {
            let sz = signed(familiar.size as i64);
            self.labelled(out, "familiar-size-label", sz.as_str());
        }
        proof {
            lemma_concat_associative(start, acc, piece);
            acc = acc + piece;
        }
        let ghost piece = opt_bullet(labels, familiar.cord_gold != 0, "familiar-cord-gold"@, signed_spec(familiar.cord_gold as int));
        if familiar.cord_gold != 0 {
            let v = signed(familiar.cord_gold as i64);
            self.labelled(out, "familiar-cord-gold", v.as_str());
        }
        proof {
            lemma_concat_associative(start, acc, piece);
            acc = acc + piece;
        }
        let ghost piece = opt_bullet(labels, familiar.cord_silver != 0, "familiar-cord-silver"@, signed_spec(familiar.cord_silver as int));
        if familiar.cord_silver != 0 {
            let v = signed(familiar.cord_silver as i64);
            self.labelled(out, "familiar-cord-silver", v.as_str());
        }
        proof {
            lemma_concat_associative(start, acc, piece);
            acc = acc + piece;
        }
        let ghost piece = opt_bullet(labels, familiar.cord_bronze != 0, "familiar-cord-bronze"@, signed_spec(familiar.cord_bronze as int));
        if familiar.cord_bronze != 0 {
            let v = signed(familiar.cord_bronze as i64);
            self.labelled(out, "familiar-cord-bronze", v.as_str());
        }
        proof {
            lemma_concat_associative(start, acc, piece);
            acc = acc + piece;
        }
        out.append("\n");
        proof {
            lemma_concat_associative(start, acc, "\n"@);
        }
        assert(self.read@ =~= old(self).read@ + familiar_card_reads(*familiar));
    }

    /// The annotation block: Living Conditions, Warping, Twilight Scars,
    /// Decrepitude, the accrued aging points, and the aging log.
    pub fn write_annotations(&mut self, out: &mut String)
        requires
            old(self).wf(),
        ensures
            final(self).wf(),
            final(self).same_inputs(old(self)),
            final(out)@ == old(out)@ + annotations_section(old(self).entity, old(self).ruleset, old(self).labels@),
            final(self).read@ == old(self).read@ + annotations_reads(old(self).entity, old(self).ruleset, old(self).labels@),
    {
        let e = self.entity;
        let ghost lrs = self.ruleset;
        let ghost labels = self.labels@;
        let w = warping(e, self.rules());
        let decrepitude = decrepitude_score(e, self.rules());
        let mut body = String::new();
        self.write_living_conditions(&mut body);
        assert(body@ =~= living_block(lrs, labels, e.living_conditions@));
        self.write_warping(&mut body, w.score as i64, w.points as i64);
        self.write_scars(&mut body);
        self.write_decrepitude(&mut body, decrepitude as i64);
        self.write_aging_points(&mut body);
        self.write_aging_log(&mut body);
        assert(body@ == annotations_body(e, lrs, labels));
        if body.as_str().is_empty() {
            assert(self.read@ =~= old(self).read@ + annotations_reads(self.entity, self.ruleset, self.labels@));
            return;
        }
        self.section(out, 2, "aging-label");
        out.append(body.as_str());
        assert(self.read@ =~= old(self).read@ + annotations_reads(self.entity, self.ruleset, self.labels@));
    }

    /// The chosen Living Conditions, one inline list of names.
    fn write_living_conditions(&mut self, out: &mut String)
        requires
            old(self).wf(),
        ensures
            final(self).wf(),
            final(self).same_inputs(old(self)),
            final(out)@ == old(out)@ + living_block(old(self).ruleset, old(self).labels@, old(self).entity.living_conditions@),
            final(self).read@ == old(self).read@ + living_reads(old(self).entity.living_conditions@),
    {
        let ghost lrs = self.ruleset;
        let ghost labels = self.labels@;
        let chosen = &self.entity.living_conditions;
        if chosen.len() == 0 {
            assert(out@ =~= old(out)@ + living_block(lrs, labels, chosen@));
            assert(self.read@ =~= old(self).read@ + living_reads(self.entity.living_conditions@));
            return;
        }
        let mut names: Vec<String> = Vec::new();
        let mut i: usize = 0;
        proof {
            assert(id_texts(chosen@).take(0) =~= Seq::<Seq<char>>::empty());
            assert(self.read@ =~= old(self).read@ + ids_of(id_texts(chosen@).take(0)));
        }
        while i < chosen.len()
            invariant
                self.wf(),
                self.same_inputs(old(self)),
                lrs == self.ruleset,
                chosen == &self.entity.living_conditions,
                i <= chosen@.len(),
                strings_view(names@) == chosen@.take(i as int).map_values(|id: Id| escape_spec(name_text(lrs, id@))),
                self.read@ == old(self).read@ + ids_of(id_texts(chosen@).take(i as int)),
            decreases chosen.len() - i,
        {
            let ghost before = names@;
            let n = self.name(chosen[i].as_str());
            names.push(escape_cell(n.as_str()));
            proof {
                assert(strings_view(names@) =~= strings_view(before).push(escape_spec(name_text(lrs, chosen@[i as int]@))));
                assert(chosen@.take(i + 1).map_values(|id: Id| escape_spec(name_text(lrs, id@)))
                    =~= chosen@.take(i as int).map_values(|id: Id| escape_spec(name_text(lrs, id@))).push(escape_spec(name_text(lrs, chosen@[i as int]@))));
            }
            proof {
                lemma_keys_of_step(id_texts(chosen@), i as int);
                assert(self.read@ =~= old(self).read@ + ids_of(id_texts(chosen@).take(i + 1)));
            }
            i += 1;
        }
        assert(chosen@.take(chosen@.len() as int) =~= chosen@);
        assert(id_texts(chosen@).take(chosen@.len() as int) =~= id_texts(chosen@));
        let sep = self.list_separator();
        let list = join(&names, sep.as_str());
        self.labelled(out, "living-conditions-label", list.as_str());
        out.append("\n");
        proof {
            lemma_concat_associative(old(out)@, bullet(label_text(labels, "living-conditions-label"@), list@), "\n"@);
        }
        assert(self.read@ =~= old(self).read@ + living_reads(self.entity.living_conditions@));
    }

    /// The Warping score and points, and its effect when described; nothing
    /// when all three are empty.
    fn write_warping(&mut self, out: &mut String, score: i64, points: i64)
        requires
            old(self).wf(),
        ensures
            final(self).wf(),
            final(self).same_inputs(old(self)),
            final(out)@ == old(out)@ + warping_block(old(self).labels@, score as int, points as int, old(self).entity.warping_effect@),
            final(self).read@ == old(self).read@ + warping_reads(score as int, points as int, old(self).entity.warping_effect@),
    {
        let ghost labels = self.labels@;
        let e = self.entity;
        let has_effect = !is_blank(e.warping_effect.as_str());
        if score != 0 || points != 0 || has_effect {
            let ghost start = out@;
            self.section(out, 3, "warping-label");
            let ghost mut acc = heading_text(labels, 3, "warping-label"@);
            let s = num(score);
            self.labelled(out, "ability-score-label", s.as_str());
            proof {
                let piece = bullet(label_text(labels, "ability-score-label"@), decimal_int(score as int));
                lemma_concat_associative(start, acc, piece);
                acc = acc + piece;
            }
            let p = num(points);
            self.labelled(out, "warping-points-label", p.as_str());
            proof {
                let piece = bullet(label_text(labels, "warping-points-label"@), decimal_int(points as int));
                lemma_concat_associative(start, acc, piece);
                acc = acc + piece;
            }
            if has_effect {
                let effect = escape_cell(e.warping_effect.as_str());
                self.labelled(out, "warping-effect-label", effect.as_str());
            }
            proof {
                let piece = opt_bullet(labels, has_effect, "warping-effect-label"@, escape_spec(e.warping_effect@));
                lemma_concat_associative(start, acc, piece);
                acc = acc + piece;
            }
            out.append("\n");
            proof {
                lemma_concat_associative(start, acc, "\n"@);
            }
        } else {
            assert(out@ =~= old(out)@ + warping_block(labels, score as int, points as int, e.warping_effect@));
        }
        assert(self.read@ =~= old(self).read@ + warping_reads(score as int, points as int, self.entity.warping_effect@));
    }

    /// One line per Twilight Scar.
    fn write_scars(&mut self, out: &mut String)
        requires
            old(self).wf(),
        ensures
            final(self).wf(),
            final(self).same_inputs(old(self)),
            final(out)@ == old(out)@ + scars_block(old(self).labels@, old(self).entity.twilight_scars@),
            final(self).read@ == old(self).read@ + scars_reads(old(self).entity.twilight_scars@),
    {
        let ghost labels = self.labels@;
        let e = self.entity;
        if e.twilight_scars.len() == 0 {
            assert(out@ =~= old(out)@ + scars_block(labels, e.twilight_scars@));
            assert(self.read@ =~= old(self).read@ + scars_reads(self.entity.twilight_scars@));
            return;
        }
        self.section(out, 3, "twilight-scars-label");
        let ghost head = out@;
        let mut i: usize = 0;
        while i < e.twilight_scars.len()
            invariant
                i <= e.twilight_scars@.len(),
                out@ == head + scar_lines(e.twilight_scars@.take(i as int)),
            decreases e.twilight_scars.len() - i,
        {
            proof {
                assert(e.twilight_scars@.take(i + 1).drop_last() =~= e.twilight_scars@.take(i as int));
            }
            let ghost before = out@;
            out.append("- ");
            let d = escape_cell(e.twilight_scars[i].description.as_str());
            out.append(d.as_str());
            out.append("\n");
            proof {
                let line = "- "@ + escape_spec(e.twilight_scars@[i as int].description@) + "\n"@;
                assert(out@ =~= before + line);
                lemma_concat_associative(head, scar_lines(e.twilight_scars@.take(i as int)), line);
            }
            i += 1;
        }
        assert(e.twilight_scars@.take(e.twilight_scars@.len() as int) =~= e.twilight_scars@);
        out.append("\n");
        proof {
            let h = heading_text(labels, 3, "twilight-scars-label"@);
            lemma_concat_associative(old(out)@, h, scar_lines(e.twilight_scars@));
            lemma_concat_associative(old(out)@, h + scar_lines(e.twilight_scars@), "\n"@);
        }
        assert(self.read@ =~= old(self).read@ + scars_reads(self.entity.twilight_scars@));
    }

    /// The Decrepitude score, and its effect when described; nothing when
    /// both are empty.
    fn write_decrepitude(&mut self, out: &mut String, decrepitude: i64)
        requires
            old(self).wf(),
        ensures
            final(self).wf(),
            final(self).same_inputs(old(self)),
            final(out)@ == old(out)@ + decrepitude_block(old(self).labels@, decrepitude as int, old(self).entity.decrepitude_effect@),
            final(self).read@ == old(self).read@ + decrepitude_reads(decrepitude as int, old(self).entity.decrepitude_effect@),
    {
        let ghost labels = self.labels@;
        let e = self.entity;
        let has_effect = !is_blank(e.decrepitude_effect.as_str());
        if decrepitude != 0 || has_effect {
            let ghost start = out@;
            self.section(out, 3, "decrepitude-label");
            let ghost mut acc = heading_text(labels, 3, "decrepitude-label"@);
            let s = num(decrepitude);
            self.labelled(out, "ability-score-label", s.as_str());
            proof {
                let piece = bullet(label_text(labels, "ability-score-label"@), decimal_int(decrepitude as int));
                lemma_concat_associative(start, acc, piece);
                acc = acc + piece;
            }
            if has_effect {
                let effect = escape_cell(e.decrepitude_effect.as_str());
                self.labelled(out, "decrepitude-effect-label", effect.as_str());
            }
            proof {
                let piece = opt_bullet(labels, has_effect, "decrepitude-effect-label"@, escape_spec(e.decrepitude_effect@));
                lemma_concat_associative(start, acc, piece);
                acc = acc + piece;
            }
            out.append("\n");
            proof {
                lemma_concat_associative(start, acc, "\n"@);
            }
        } else {
            assert(out@ =~= old(out)@ + decrepitude_block(labels, decrepitude as int, e.decrepitude_effect@));
        }
        assert(self.read@ =~= old(self).read@ + decrepitude_reads(decrepitude as int, self.entity.decrepitude_effect@));
    }

    /// The aging log: one bullet per logged year, keyed by the year when it
    /// is known.
    fn write_aging_log(&mut self, out: &mut String)
        requires
            old(self).wf(),
        ensures
            final(self).wf(),
            final(self).same_inputs(old(self)),
            final(out)@ == old(out)@ + log_block(old(self).ruleset, old(self).labels@, old(self).entity.aging_log@),
            final(self).read@ == old(self).read@ + log_block_reads(old(self).entity.aging_log@),
    {
        let ghost lrs = self.ruleset;
        let ghost labels = self.labels@;
        let e = self.entity;
        if e.aging_log.len() == 0 {
            assert(out@ =~= old(out)@ + log_block(lrs, labels, e.aging_log@));
            assert(e.aging_log@.take(e.aging_log@.len() as int) =~= e.aging_log@);
        assert(self.read@ =~= old(self).read@ + log_block_reads(self.entity.aging_log@));
            return;
        }
        self.section(out, 3, "aging-log-heading");
        let ghost head = out@;
        let mut i: usize = 0;
        proof {
            assert(e.aging_log@.take(0) =~= Seq::<AgingLogEntry>::empty());
            assert(self.read@ =~= old(self).read@ + key_read("aging-log-heading"@) + log_reads(e.aging_log@.take(0)));
        }
        while i < e.aging_log.len()
            invariant
                self.wf(),
                self.same_inputs(old(self)),
                lrs == self.ruleset,
                labels == self.labels@,
                e == self.entity,
                i <= e.aging_log@.len(),
                out@ == head + log_lines(lrs, labels, e.aging_log@.take(i as int)),
                self.read@ == old(self).read@ + key_read("aging-log-heading"@) + log_reads(e.aging_log@.take(i as int)),
            decreases e.aging_log.len() - i,
        {
            proof {
                assert(e.aging_log@.take(i + 1).drop_last() =~= e.aging_log@.take(i as int));
            }
            let ghost before = out@;
            let entry = &e.aging_log[i];
            let recorded = self.aging_log_entry(entry);
            match entry.year {
                Some(year) => {
                    let y = num(year as i64);
                    field(out, y.as_str(), recorded.as_str());
                },
                None => {
                    out.append("- ");
                    out.append(recorded.as_str());
                    out.append("\n");
                },
            }
            proof {
                let line = log_line(lrs, labels, e.aging_log@[i as int]);
                assert(out@ =~= before + line);
                lemma_concat_associative(head, log_lines(lrs, labels, e.aging_log@.take(i as int)), line);
            }
            proof {
                assert(e.aging_log@.take(i + 1).drop_last() =~= e.aging_log@.take(i as int));
                assert(self.read@ =~= old(self).read@ + key_read("aging-log-heading"@) + log_reads(e.aging_log@.take(i + 1)));
            }
            i += 1;
        }
        assert(e.aging_log@.take(e.aging_log@.len() as int) =~= e.aging_log@);
        out.append("\n");
        proof {
            let h = heading_text(labels, 3, "aging-log-heading"@);
            lemma_concat_associative(old(out)@, h, log_lines(lrs, labels, e.aging_log@));
            lemma_concat_associative(old(out)@, h + log_lines(lrs, labels, e.aging_log@), "\n"@);
        }
        assert(self.read@ =~= old(self).read@ + log_block_reads(self.entity.aging_log@));
    }

    /// One logged year: its text, the die and total the player entered, and
    /// the Crisis it led to.
    fn aging_log_entry(&mut self, entry: &AgingLogEntry) -> (r: String)
        requires
            old(self).wf(),
        ensures
            final(self).wf(),
            final(self).same_inputs(old(self)),
            r@ == join_spec(entry_parts(old(self).ruleset, old(self).labels@, *entry), " · "@),
            final(self).read@ == old(self).read@ + entry_reads(*entry),
    {
        let ghost lrs = self.ruleset;
        let ghost labels = self.labels@;
        let mut parts: Vec<String> = Vec::new();
        let effect = escape_cell(entry.effect.as_str());
        if !effect.as_str().is_empty() {
            parts.push(effect);
        }
        let ghost p1 = strings_view(parts@);
        assert(p1 =~= (if escape_spec(entry.effect@).len() > 0 { seq![escape_spec(entry.effect@)] } else { Seq::empty() }));
        match entry.die {
            Some(die) => {
                let l = self.label("aging-die-label");
                let n = num(die as i64);
                parts.push(pair(l.as_str(), n.as_str()));
            },
            None => {},
        }
        let ghost p2 = strings_view(parts@);
        assert(p2 =~= p1 + match entry.die {
            Some(d) => seq![label_text(labels, "aging-die-label"@) + ": "@ + decimal_int(d as int)],
            None => Seq::empty(),
        });
        match entry.total {
            Some(total) => {
                let l = self.label("export-col-total");
                let n = num(total as i64);
                parts.push(pair(l.as_str(), n.as_str()));
            },
            None => {},
        }
        let ghost p3 = strings_view(parts@);
        assert(p3 =~= p2 + match entry.total {
            Some(t) => seq![label_text(labels, "export-col-total"@) + ": "@ + decimal_int(t as int)],
            None => Seq::empty(),
        });
        self.aging_log_crisis(entry, &mut parts);
        assert(strings_view(parts@) =~= entry_parts(lrs, labels, *entry));
        assert(self.read@ =~= old(self).read@ + entry_reads(*entry));
        join(&parts, " · ")
    }

    /// What the Crisis Table answered for one logged year, or that it has not
    /// been asked yet; nothing for a year with no Crisis.
    fn aging_log_crisis(&mut self, entry: &AgingLogEntry, parts: &mut Vec<String>)
        requires
            old(self).wf(),
        ensures
            final(self).wf(),
            final(self).same_inputs(old(self)),
            strings_view(final(parts)@) == strings_view(old(parts)@) + crisis_parts(old(self).ruleset, old(self).labels@, *entry),
            final(self).read@ == old(self).read@ + crisis_reads(*entry),
    {
        let ghost lrs = self.ruleset;
        let ghost labels = self.labels@;
        let ghost start = strings_view(parts@);
        if !entry.crisis {
            assert(strings_view(parts@) =~= start + crisis_parts(lrs, labels, *entry));
            assert(self.read@ =~= old(self).read@ + crisis_reads(*entry));
            return;
        }
        let row = match &entry.crisis_row {
            Some(r) => r,
            None => {
                parts.push(self.label("aging-log-crisis-unrolled"));
                assert(strings_view(parts@) =~= start + crisis_parts(lrs, labels, *entry));
                assert(self.read@ =~= old(self).read@ + crisis_reads(*entry));
                return;
            },
        };
        let named = match entry.crisis_severity {
            Some(severity) => {
                let mut s = self.name(row.as_str());
                s.append(" (");
                let sev = self.label2("crisis-severity-", severity.slug());
                s.append(sev.as_str());
                s.append(")");
                s
            },
            None => self.name(row.as_str()),
        };
        let l = self.label("crisis-label");
        parts.push(pair(l.as_str(), named.as_str()));
        match entry.crisis_die {
            Some(die) => {
                let l = self.label("crisis-die-label");
                let n = num(die as i64);
                parts.push(pair(l.as_str(), n.as_str()));
            },
            None => {},
        }
        match entry.crisis_total {
            Some(total) => {
                let l = self.label("crisis-total-label");
                let n = num(total as i64);
                parts.push(pair(l.as_str(), n.as_str()));
            },
            None => {},
        }
        assert(strings_view(parts@) =~= start + crisis_parts(lrs, labels, *entry));
        assert(self.read@ =~= old(self).read@ + crisis_reads(*entry));
    }

    /// The accrued aging points, one bullet per Characteristic carrying any.
    fn write_aging_points(&mut self, out: &mut String)
        requires
            old(self).wf(),
        ensures
            final(self).wf(),
            final(self).same_inputs(old(self)),
            final(out)@ == old(out)@ + aging_points_block(old(self).labels@, old(self).entity.aging_points@),
            final(self).read@ == old(self).read@ + aging_points_reads(old(self).entity.aging_points@),
    {
        let ghost labels = self.labels@;
        let all = Characteristic::all();
        let mut accrued: Vec<(Characteristic, u8)> = Vec::new();
        let mut i: usize = 0;
        while i < all.len()
            invariant
                all@ == all_characteristics(),
                i <= all@.len(),
                accrued@ == accrued_points(self.entity.aging_points@, all@.take(i as int)),
            decreases all.len() - i,
        {
            proof {
                assert(all@.take(i + 1).drop_last() =~= all@.take(i as int));
            }
            let c = all[i];
            let points: u8 = match crate::catalog::char_get(&self.entity.aging_points, c) {
                Some(p) => p,
                None => 0,
            };
            if points != 0 {
                accrued.push((c, points));
            }
            i += 1;
        }
        assert(all@.take(all@.len() as int) =~= all@);
        if accrued.len() == 0 {
            assert(out@ =~= old(out)@ + aging_points_block(labels, self.entity.aging_points@));
            assert(point_keys(accrued@).take(accrued@.len() as int) =~= point_keys(accrued@));
        assert(accrued@ == accrued_points(self.entity.aging_points@, all_characteristics()));
        assert(self.read@ =~= old(self).read@ + aging_points_reads(self.entity.aging_points@));
            return;
        }
        self.section(out, 3, "aging-points-heading");
        let ghost head = out@;
        proof {
            assert(point_keys(accrued@).take(0) =~= Seq::<Seq<char>>::empty());
            assert(self.read@ =~= old(self).read@ + key_read("aging-points-heading"@) + keys_of(point_keys(accrued@).take(0)));
        }
        let mut k: usize = 0;
        while k < accrued.len()
            invariant
                self.wf(),
                self.same_inputs(old(self)),
                labels == self.labels@,
                k <= accrued@.len(),
                out@ == head + point_lines(labels, accrued@.take(k as int)),
                self.read@ == old(self).read@ + key_read("aging-points-heading"@) + keys_of(point_keys(accrued@).take(k as int)),
            decreases accrued.len() - k,
        {
            proof {
                assert(accrued@.take(k + 1).drop_last() =~= accrued@.take(k as int));
            }
            let (c, points) = accrued[k];
            let key = concat("characteristic-", c.slug());
            let n = num(points as i64);
            self.labelled(out, key.as_str(), n.as_str());
            proof {
                lemma_keys_of_step(point_keys(accrued@), k as int);
                assert(point_keys(accrued@)[k as int] == "characteristic-"@ + c.slug_spec());
                assert(self.read@ =~= old(self).read@ + key_read("aging-points-heading"@) + keys_of(point_keys(accrued@).take(k + 1)));
            }
            k += 1;
        }
        assert(accrued@.take(accrued@.len() as int) =~= accrued@);
        out.append("\n");
        proof {
            let h = heading_text(labels, 3, "aging-points-heading"@);
            lemma_concat_associative(old(out)@, h, point_lines(labels, accrued@));
            lemma_concat_associative(old(out)@, h + point_lines(labels, accrued@), "\n"@);
        }
        assert(point_keys(accrued@).take(accrued@.len() as int) =~= point_keys(accrued@));
        assert(accrued@ == accrued_points(self.entity.aging_points@, all_characteristics()));
        assert(self.read@ =~= old(self).read@ + aging_points_reads(self.entity.aging_points@));
    }
}

} // verus!

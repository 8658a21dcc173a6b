use lcb_core::enemy_unit::{enemy_unit, parse_i32, parse_speed, EnemyBlueprint, EnemyPartPlan, EnemyTraits};
use lcb_core::keyed::StrMap;
use lcb_core::scripts::{ClashCountSwing, Segmentation, StateScript, TimeState};
use lcb_core::setup::SetupError;
use lcb_core::state::{Sanity, UnitKind};

fn record() -> EnemyBlueprint {
    EnemyBlueprint {
        id: "9567".to_string(),
        name_en: Some("Imago".to_string()),
        level: None,
        parts: vec![EnemyPartPlan {
            name: Some("Body".to_string()),
            speed: Some("3 ~ 7".to_string()),
            defense_level_mod: Some(2),
            stagger_thresholds: vec![Some(60), None, Some(30)],
        }],
    }
}

fn chars(s: &str) -> Vec<char> {
    s.chars().collect()
}

#[test]
fn integers_parse_like_from_str() {
    assert_eq!(parse_i32(&chars("42")), Some(42));
    assert_eq!(parse_i32(&chars("+7")), Some(7));
    assert_eq!(parse_i32(&chars("-2147483648")), Some(i32::MIN));
    assert_eq!(parse_i32(&chars("2147483648")), None);
    assert_eq!(parse_i32(&chars("99999999999999999999")), None);
    assert_eq!(parse_i32(&chars("-")), None);
    assert_eq!(parse_i32(&chars("")), None);
    assert_eq!(parse_i32(&chars("4a")), None);
    assert_eq!(parse_i32(&chars(" 4")), None);
}

#[test]
fn speed_ranges_are_read_from_the_printed_text() {
    assert_eq!(parse_speed("3 ~ 7"), (3, 7));
    assert_eq!(parse_speed("2~4~9"), (2, 4));
    assert_eq!(parse_speed("5"), (1, 3));
    assert_eq!(parse_speed("x ~ 4"), (1, 3));
    assert_eq!(parse_speed(""), (1, 3));
}

#[test]
fn an_enemy_without_hp_cannot_be_built() {
    match enemy_unit(&record(), None, 0, None) {
        Err(SetupError::MissingField(what)) => assert_eq!(what, "enemy 9567 hp"),
        _ => panic!("expected a missing field"),
    }
}

#[test]
fn an_enemy_unit_takes_its_record_and_script() {
    let mut states = StrMap::new();
    let script = |big: &str| StateScript {
        small: "s".to_string(),
        mid: "m".to_string(),
        big: big.to_string(),
        bands: Vec::new(),
    };
    states.insert("future", script("F"));
    states.insert("past", script("P"));
    let traits = EnemyTraits {
        slots: 3,
        acts_while_staggered: true,
        clash_count_swing: Some(ClashCountSwing { threshold: 2, divisor: 3 }),
        hp_floor_percent: Some(90),
        segmentation: Some(Segmentation {
            stack_status: "In the Past".to_string(),
            stack_loss_per_hit: 1,
            gain_if_not_hit: 2,
            attacker_sp_heal: 3,
        }),
        shield_flat: Some(333),
        ends_encounter_unless_shield_broken: true,
        ends_encounter_on: vec!["956799".to_string()],
        states,
    };
    let u = match enemy_unit(&record(), Some(&traits), 2, Some(1000)) {
        Ok(u) => u,
        Err(_) => panic!("expected a unit"),
    };
    assert_eq!(u.id.0, "enemy-2-9567");
    assert_eq!(u.name, "Imago");
    assert!(matches!(&u.kind, UnitKind::Abnormality { part: Some(p), .. } if p == "Body"));
    assert_eq!((u.level, u.hp, u.max_hp, u.speed_range, u.defense_level_mod), (60, 1000, 1000, (3, 7), 2));
    assert_eq!(u.sanity, Sanity::NoSanity);
    assert_eq!(u.stagger.thresholds_percent, vec![60, 30]);
    assert_eq!(u.stagger.thresholds_hp, vec![600, 300]);
    assert_eq!((u.enemy_slots, u.acts_while_staggered, u.hp_floor_percent, u.shield_flat), (3, true, Some(90), Some(333)));
    assert_eq!(u.ends_encounter_on, vec!["956799".to_string()]);
    assert_eq!(u.time_signature, vec![(TimeState::Past, "P".to_string()), (TimeState::Future, "F".to_string())]);
    assert!(u.alive);
    let plain = match enemy_unit(&record(), None, 0, Some(10)) {
        Ok(u) => u,
        Err(_) => panic!("expected a unit"),
    };
    assert_eq!((plain.enemy_slots, plain.shield_flat), (1, None));
    assert!(plain.time_signature.is_empty());
}

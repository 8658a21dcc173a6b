use lcb_core::ids::{DamageType, EgoId, Sin, SkillId, SkillSlot, UnitId, Uptie};
use lcb_core::keyed::StrMap;
use lcb_core::replay::{record, Replay, ReplayMismatch};
use lcb_core::scripts::TimeState;
use lcb_core::setup::{ego_for_identity, empty_skill, sin_key};
use lcb_core::state::{BattleConfig, SkillDeck, StaggerState, StatusInstance, StatusSet};
use lcb_core::text::{decimal_text, normalized, same_text, starts_with};

#[test]
fn text_is_trimmed_and_lower_cased() {
    let n: String = normalized("  Gloom \t").into_iter().collect();
    assert_eq!(n, "gloom");
    assert!(same_text("abc", "abc"));
    assert!(!same_text("abc", "abd"));
    assert!(starts_with("Amplitude Conversion: Decay", "Amplitude Conversion"));
    assert!(!starts_with("Amp", "Amplitude"));
    assert!(starts_with("x", ""));
}

#[test]
fn decimals_are_written_like_format() {
    assert_eq!(decimal_text(0), "0");
    assert_eq!(decimal_text(120), "120");
    assert_eq!(decimal_text(-7), "-7");
    assert_eq!(decimal_text(i64::MIN), i64::MIN.to_string());
    assert_eq!(decimal_text(i64::MAX), i64::MAX.to_string());
}

#[test]
fn sins_and_kinds_parse_case_insensitively() {
    assert_eq!(Sin::parse(" GLOOM "), Some(Sin::Gloom));
    assert_eq!(Sin::parse("sorrow"), None);
    assert_eq!(Sin::Envy.index(), 6);
    assert_eq!(DamageType::parse("Pierce"), Some(DamageType::Pierce));
    assert_eq!(SkillSlot::parse("defense"), Some(SkillSlot::Defense));
    assert_eq!(Uptie::iv().index(), 3);
    assert_eq!(Uptie(9).index(), 3);
    assert_eq!(Uptie(0).index(), 0);
    assert_eq!(sin_key(Sin::Wrath), "wrath");
}

#[test]
fn ids_compare_by_text() {
    let a = SkillId::new("1011001");
    assert!(a.same(&SkillId::new("1011001")));
    assert!(!a.same(&SkillId::new("1011002")));
    assert_eq!(UnitId::new("s1").duplicate().as_str(), "s1");
    assert_eq!(empty_skill().as_str(), "");
}

#[test]
fn keyed_map_stays_sorted_and_unique() {
    let mut m = StrMap::new();
    m.insert("pride", 1);
    m.insert("envy", 2);
    m.insert("pride", 3);
    assert_eq!(m.len(), 2);
    assert_eq!(m.keys(), vec!["envy".to_string(), "pride".to_string()]);
    assert_eq!(m.get("pride"), Some(&3));
    assert!(m.contains_key("envy"));
    m.remove("envy");
    m.remove("absent");
    assert_eq!(m.len(), 1);
    assert!(!m.is_empty());
    assert_eq!(m.locate("a"), Err(0));
    assert_eq!(m.locate("pride"), Ok(0));
}

#[test]
fn statuses_vanish_when_empty() {
    let mut s = StatusSet::new();
    s.add_potency("Burn", 3);
    s.add_count("Burn", 2);
    assert_eq!(s.total_of("Burn"), 5);
    assert_eq!(s.total("Burn"), 5);
    s.add_potency("Burn", -10);
    assert_eq!(s.potency("Burn"), 0);
    s.add_count("Burn", -2);
    assert!(s.is_empty());
    s.set("Haste", StatusInstance { potency: 0, count: 0, stack: 2 });
    s.set_stack("Haste", -4);
    assert!(s.is_empty());
    s.add_stack("Charge", 3);
    assert_eq!(s.keys(), vec!["Charge".to_string()]);
    assert_eq!(s.iter().len(), 1);
    s.remove("Charge");
    assert_eq!(s.get("Charge"), StatusInstance::zero());
}

#[test]
fn stagger_lines_are_crossed_once() {
    let mut st = StaggerState::new(vec![70, 40]);
    st.bind_max_hp(200);
    assert_eq!(st.threshold_hp(0), Some(140));
    assert_eq!(st.threshold_hp(1), Some(80));
    assert_eq!(st.remaining_crossed(150), 0);
    assert!(st.check(120));
    assert_eq!(st.level, 1);
    assert_eq!(st.turns_remaining, 2);
    assert!(st.is_staggered());
    assert!(!st.check(120));
    assert!(st.check(50));
    assert_eq!(st.level, 2);
    assert_eq!(st.consumed, 2);
}

#[test]
fn shifting_a_threshold_moves_the_first_live_line() {
    let mut st = StaggerState::new(vec![70, 40]);
    st.bind_max_hp(100);
    assert_eq!(st.shift_first_threshold(5), Some(75));
    assert_eq!(st.threshold_hp(0), Some(75));
    assert_eq!(st.shift_first_threshold(-100), Some(0));
}

#[test]
fn deck_consumes_the_paneled_copy() {
    let mut rng = lcb_core::rng::Rng::from_seed(4);
    let mut deck = SkillDeck::new(vec![(SkillId::new("s1"), 1), (SkillId::new("s0"), 0)]);
    assert_eq!(deck.composition.len(), 1);
    let drawn = deck.draw(&mut rng).unwrap();
    assert_eq!(drawn.as_str(), "s1");
    assert_eq!(deck.paneled_count(&drawn), 1);
    deck.consume(&drawn);
    assert_eq!(deck.paneled_count(&drawn), 0);
    assert_eq!(deck.len(), 0);
    deck.reset();
    assert_eq!(deck.len(), 1);
}

#[test]
fn time_states_read_back() {
    for t in TimeState::ALL {
        assert_eq!(TimeState::parse(t.as_str()), Some(t));
    }
    assert_eq!(TimeState::Future.stack_key(), "In the Future");
    assert_eq!(TimeState::parse("yesterday"), None);
}

#[test]
fn fixed_loadout_lists_each_identitys_ego() {
    let egos: Vec<String> = ego_for_identity("10110").into_iter().map(|e: EgoId| e.0).collect();
    assert_eq!(egos, vec!["20109".to_string(), "20106".to_string()]);
    assert!(ego_for_identity("99999").is_empty());
}

#[test]
fn replay_steps_check_their_hashes() {
    let mut replay = Replay::new(7, BattleConfig::default(), &["10110"], &["9567"]);
    assert_eq!(replay.team, vec!["10110".to_string()]);
    record(&mut replay, 1, Vec::new(), 11, 22);
    assert_eq!(replay.steps.len(), 1);
    assert!(replay.check_step(0, false, 11, 22).is_ok());
    assert!(matches!(replay.check_step(0, true, 11, 22), Err(ReplayMismatch::ContinuesAfterEnd { step: 0 })));
    assert!(matches!(
        replay.check_step(0, false, 12, 22),
        Err(ReplayMismatch::StateHash { step: 0, recorded: 11, simulated: 12 })
    ));
    assert!(matches!(replay.check_step(0, false, 11, 23), Err(ReplayMismatch::TransitionHash { step: 0 })));
}

#[test]
fn default_config_matches_the_plan() {
    let c = BattleConfig::default();
    assert_eq!(c.starting_sp, 45);
    assert!(c.focused_encounter);
    assert!(c.strict_mechanics);
    assert_eq!(c.max_turns, 30);
}

use lcb_core::affinity::sin_of;
use lcb_core::ids::{Sin, SkillId};
use lcb_core::keyed::StrMap;
use lcb_core::library::{EgoRecord, EgoSkill, EnemySkillRecord, SkillRecord, SkillTier};

fn tier(sin: &str) -> SkillTier {
    SkillTier {
        base_power: None,
        coin_power: None,
        coins: None,
        offense_level_mod: None,
        attack_weight: None,
        defense_level_mod: None,
        sin_affinity: Some(sin.to_string()),
        skill_amount: None,
        on_use_text: String::new(),
        coin_texts: Vec::new(),
        tags: Vec::new(),
    }
}

fn kit_skill(id: &str, sin4: &str) -> SkillRecord {
    let mut upties = StrMap::new();
    upties.insert("3", tier("Sloth"));
    upties.insert("4", tier(sin4));
    SkillRecord {
        id: id.to_string(),
        slot: "Skill 1".to_string(),
        name: None,
        name_en: None,
        name_zh: None,
        kind: None,
        rank: None,
        upties,
    }
}

fn enemy_skill(id: Option<&str>, name: &str, sin: &str) -> EnemySkillRecord {
    EnemySkillRecord {
        id: id.map(|s| s.to_string()),
        name: Some(name.to_string()),
        hint: None,
        level: None,
        sin: Some(sin.to_string()),
        rank: None,
        kind: None,
        base_power: None,
        coin_power: None,
        coins: None,
        attack_weight: None,
        offense_level_mod: None,
        on_use_text: String::new(),
        coin_texts: Vec::new(),
    }
}

fn part(sin: &str) -> EgoSkill {
    EgoSkill {
        name: None,
        sin: Some(sin.to_string()),
        kind: None,
        base_power: None,
        coin_power: None,
        coins: None,
        attack_weight: None,
        offense_level_mod: None,
        on_use_text: String::new(),
        coin_texts: Vec::new(),
        reuse: false,
    }
}

fn ego(awakening: Option<&str>, corrosion: Option<&str>) -> EgoRecord {
    EgoRecord {
        id: "20109".to_string(),
        name_en: None,
        name_zh: None,
        wiki_title: None,
        risk: None,
        sin_affinity: None,
        awakening_sp: None,
        corrosion_sp: None,
        resource_cost: StrMap::new(),
        awakening: awakening.map(part),
        corrosion: corrosion.map(part),
        unparsed: Vec::new(),
        sources: Vec::new(),
    }
}

fn library() -> (StrMap<Vec<SkillRecord>>, StrMap<Vec<EnemySkillRecord>>, StrMap<EgoRecord>) {
    let mut kits = StrMap::new();
    kits.insert("10110", vec![kit_skill("1011001", "Wrath")]);
    kits.insert("10201", vec![kit_skill("shared", "Lust"), kit_skill("1020102", "Gluttony")]);
    kits.insert("10001", vec![kit_skill("shared", "Pride")]);
    let mut enemies = StrMap::new();
    enemies.insert("9567", vec![enemy_skill(Some("900"), "Wing", "Envy"), enemy_skill(None, "Swirl", "Gloom")]);
    let mut egos = StrMap::new();
    egos.insert("20109", ego(Some("Gloom"), Some("Wrath")));
    egos.insert("20200", ego(None, Some("Lust")));
    (kits, enemies, egos)
}

#[test]
fn kit_skills_read_their_uptie_iv_sin() {
    let (kits, enemies, egos) = library();
    assert_eq!(sin_of(&kits, &enemies, &egos, &SkillId::new("1011001")), Some(Sin::Wrath));
    // Listed in two kits: the first identity in id order decides.
    assert_eq!(sin_of(&kits, &enemies, &egos, &SkillId::new("shared")), Some(Sin::Pride));
}

#[test]
fn enemy_skills_are_found_by_id_or_name() {
    let (kits, enemies, egos) = library();
    assert_eq!(sin_of(&kits, &enemies, &egos, &SkillId::new("900")), Some(Sin::Envy));
    assert_eq!(sin_of(&kits, &enemies, &egos, &SkillId::new("Wing")), Some(Sin::Envy));
    assert_eq!(sin_of(&kits, &enemies, &egos, &SkillId::new("Swirl")), Some(Sin::Gloom));
}

#[test]
fn ego_skills_by_bare_id_or_by_part() {
    let (kits, enemies, egos) = library();
    assert_eq!(sin_of(&kits, &enemies, &egos, &SkillId::new("20109")), Some(Sin::Gloom));
    assert_eq!(sin_of(&kits, &enemies, &egos, &SkillId::new("20200")), Some(Sin::Lust));
    assert_eq!(sin_of(&kits, &enemies, &egos, &SkillId::new("20109.corrosion")), Some(Sin::Wrath));
    assert_eq!(sin_of(&kits, &enemies, &egos, &SkillId::new("20109.awakening")), Some(Sin::Gloom));
    assert_eq!(sin_of(&kits, &enemies, &egos, &SkillId::new("20200.awakening")), None);
    assert_eq!(sin_of(&kits, &enemies, &egos, &SkillId::new("nothing")), None);
}

use server::world::combat::{CombatEngine, Fighter, DEFAULT_ATTACK_SKILL, DEFAULT_DODGE_SKILL};
use server::world::world_skill::{Action, DamageType, Skill, SkillClass, SkillType};

fn create_test_player(name: &str, strength: u32, dexterity: u32, unarmed: u32, dodge: u32) -> Fighter {
    Fighter {
        name: name.to_string(),
        busy: 0,
        skills: vec![(DEFAULT_ATTACK_SKILL.to_string(), unarmed), (DEFAULT_DODGE_SKILL.to_string(), dodge)],
        strength,
        dexterity,
        qi: 100,
    }
}

fn create_test_skill() -> Skill {
    Skill {
        id: 1,
        name: "unarmed".to_string(),
        skill_type: SkillType::Unarmed,
        skill_class: SkillClass::Basic,
        practice_limit: 100,
        actions: vec![
            Action {
                lvl: 1,
                damage: 10,
                force: 1,
                dodge: 0,
                parry: 0,
                damage_type: DamageType::Blunt,
                description: "$N对著$n的$l挥出了一拳".to_string(),
            },
            Action {
                lvl: 10,
                damage: 20,
                force: 2,
                dodge: 0,
                parry: 0,
                damage_type: DamageType::Blunt,
                description: "$N朝著$n的$l打出了一记重拳".to_string(),
            },
        ],
        performs: vec![],
    }
}

#[test]
fn test_execute_attack_full_round() {
    let mut attacker = create_test_player("张三", 20, 10, 15, 10);
    let mut defender = create_test_player("李四", 10, 5, 5, 5);
    let skill = create_test_skill();
    let initial_qi = defender.qi;

    let log = CombatEngine::execute_attack(&mut attacker, &mut defender, &skill);

    assert!(!log.messages.is_empty());
    if defender.qi < initial_qi {
        assert!(log.messages[0].contains("伤害"));
    } else {
        assert!(log.messages[0].contains("躲过"));
    }
    assert_eq!(attacker.busy, 3);
}

#[test]
fn busy_attacker_waits() {
    let mut attacker = create_test_player("张三", 20, 10, 15, 10);
    attacker.busy = 2;
    let mut defender = create_test_player("李四", 10, 5, 5, 5);
    let log = CombatEngine::execute_attack(&mut attacker, &mut defender, &create_test_skill());
    assert_eq!(log.messages, vec!["张三 is busy and cannot attack.".to_string()]);
    assert_eq!(attacker.busy, 2);
    assert_eq!(defender.qi, 100);
}

#[test]
fn untrained_skill_finds_no_action() {
    let mut skill = create_test_skill();
    skill.name = "sword".to_string();
    let mut attacker = create_test_player("张三", 20, 10, 15, 10);
    let mut defender = create_test_player("李四", 10, 5, 5, 5);
    let log = CombatEngine::execute_attack(&mut attacker, &mut defender, &skill);
    assert_eq!(log.messages, vec!["张三 cannot find a suitable action.".to_string()]);
    assert_eq!(attacker.busy, 0);
}

#[test]
fn round_with_draws_hits_and_fells() {
    let mut attacker = create_test_player("张三", 20, 10, 15, 10);
    let mut defender = create_test_player("李四", 10, 5, 5, 5);
    defender.qi = 5;
    let action = create_test_skill().actions.into_iter().next().unwrap();
    let log = CombatEngine::execute_attack_with(&mut attacker, &mut defender, Some(action), true, 30);
    assert_eq!(
        log.messages,
        vec!["张三对著李四的胸口挥出了一拳, 造成了30点伤害!".to_string(), "李四倒下了!".to_string()]
    );
    assert_eq!(defender.qi, 0);
    assert!(!defender.is_alive());
}

#[test]
fn round_with_draws_misses() {
    let mut attacker = create_test_player("张三", 20, 10, 15, 10);
    let mut defender = create_test_player("李四", 10, 5, 5, 5);
    let action = create_test_skill().actions.into_iter().nth(1).unwrap();
    let log = CombatEngine::execute_attack_with(&mut attacker, &mut defender, Some(action), false, 0);
    assert_eq!(log.messages, vec!["张三朝著李四的打出了一记重拳, 但是被李四躲过了。".to_string()]);
    assert_eq!(defender.qi, 100);
    assert_eq!(attacker.busy, 3);
}

#[test]
fn hit_check_compares_attack_and_dodge() {
    let attacker = create_test_player("张三", 20, 10, 15, 10);
    let defender = create_test_player("李四", 10, 5, 5, 5);
    // 15 * 1.2 + 20 * 2 + 0 = 58 against 5 * 1.1 + 5 * 2 + 9 = 24.5
    assert!(CombatEngine::hit_check_with(&attacker, &defender, 0, 9));
    // A fighter with no skills uses level 1: 1.2 + 0 + 0 against 1.1 + 0 + 0
    let weak = Fighter { name: "甲".to_string(), busy: 0, skills: vec![], strength: 0, dexterity: 0, qi: 1 };
    assert!(CombatEngine::hit_check_with(&weak, &weak, 0, 0));
    assert!(!CombatEngine::hit_check_with(&weak, &weak, 0, 1));
}

#[test]
fn selected_action_is_open_at_level() {
    let skill = create_test_skill();
    for _ in 0..20 {
        let a = CombatEngine::select_action(&skill, 5).unwrap();
        assert_eq!(a.lvl, 1);
    }
    assert!(CombatEngine::select_action(&skill, 0).is_none());
}

#[test]
fn damage_lies_in_its_range() {
    let attacker = create_test_player("张三", 20, 10, 15, 10);
    let skill = create_test_skill();
    for _ in 0..50 {
        let d = CombatEngine::calculate_damage(&attacker, &skill.actions[0]);
        assert!((24..=36).contains(&d));
    }
}

use server::arena::combat::{
    apply_damage, calculate_hit_chance, get_damage_reaction, resolve_attack_round, resolve_attack_round_with, Combatant,
};
use server::arena::npc::Npc;
use server::arena::player_state::PersistentPlayerData;
use server::arena::room::{BaseRoom, Room};

#[test]
fn bandit_is_ready_to_fight() {
    let b = Npc::new_bandit(4, 1);
    assert_eq!(b.id, 4);
    assert_eq!(b.room_id, 1);
    assert_eq!(b.name, "强盗");
    assert_eq!(b.state.base.strength, 12);
    assert_eq!(b.state.base.agility, 10);
    assert_eq!(b.state.derived.hp, 30);
    assert_eq!(b.state.derived.max_hp, 30);
    assert_eq!(b.state.derived.stamina, 50);
    assert_eq!(b.state.progression.level, 2);
    assert_eq!(b.state.progression.experience, 10);
    assert_eq!(b.get_name(), "强盗");
    assert_eq!(b.get_id(), 4);
}

#[test]
fn damage_stops_at_zero() {
    let mut b = Npc::new_bandit(1, 0);
    assert!(!apply_damage(&mut b, 12));
    assert_eq!(b.state.derived.hp, 18);
    assert!(apply_damage(&mut b, 40));
    assert_eq!(b.state.derived.hp, 0);
}

#[test]
fn reactions_by_remaining_health() {
    assert_eq!(get_damage_reaction(30, 30).class, "reaction-light");
    assert_eq!(get_damage_reaction(21, 30).class, "reaction-medium");
    assert_eq!(get_damage_reaction(22, 30).class, "reaction-light");
    assert_eq!(get_damage_reaction(9, 30).class, "reaction-heavy");
    assert_eq!(get_damage_reaction(10, 30).class, "reaction-medium");
    assert_eq!(get_damage_reaction(1, 0).class, "reaction-light");
    assert_eq!(get_damage_reaction(0, 0).class, "reaction-heavy");
    assert_eq!(get_damage_reaction(5, 30).desc_for_a, "( $d受到了不轻的创伤, 脚步变得有些不稳. )");
}

#[test]
fn hit_chance_follows_agility() {
    let a = Npc::new_bandit(1, 0);
    let mut d = Npc::new_bandit(2, 0);
    assert_eq!(calculate_hit_chance(&a, &d), 850);
    d.state.base.agility = 50;
    assert_eq!(calculate_hit_chance(&a, &d), 100);
    d.state.base.agility = 0;
    assert_eq!(calculate_hit_chance(&a, &d), 990);
}

#[test]
fn round_with_draws() {
    let mut a = Npc::new_bandit(1, 0);
    let mut d = Npc::new_bandit(2, 0);
    let out = resolve_attack_round_with(&mut a, &mut d, 0, true, 12);
    assert!(out.result.is_hit);
    assert!(!out.result.defender_is_dead);
    assert_eq!(out.result.damage_dealt, 12);
    assert_eq!(out.result.attacker_id, 1);
    assert_eq!(out.result.defender_id, 2);
    assert_eq!(d.state.derived.hp, 18);
    assert_eq!(
        out.to_attacker,
        vec!["<span class=\"combat-base\">你使出一式 </span><span class=\"combat-skill\">「黑虎掏心」</span><span class=\"combat-base\">, 正中强盗的胸口, 强盗闷哼一声! 造成了</span><span class=\"combat-damage\">12</span><span class=\"combat-base\">点伤害.</span><br/><span class=\"reaction-medium\">( 强盗闷哼了一声, 脸色有些发白. )</span>".to_string()]
    );
    assert_eq!(out.to_defender.len(), 1);

    let out = resolve_attack_round_with(&mut a, &mut d, 2, true, 30);
    assert!(out.result.defender_is_dead);
    assert_eq!(d.state.derived.hp, 0);
    assert_eq!(a.state.progression.experience, 60);
    assert_eq!(out.to_attacker.len(), 3);
    assert_eq!(out.to_attacker[2], "<span class=\"combat-xp\">你获得了 50 点经验.</span>");
    assert_eq!(out.to_defender[1], "<span class=\"reaction-crit\">你眼前一黑, 失去了知觉...</span>");

    let out = resolve_attack_round_with(&mut a, &mut d, 1, false, 0);
    assert!(!out.result.is_hit);
    assert_eq!(
        out.to_defender,
        vec!["<span class=\"combat-base\">强盗对你使出一式 </span><span class=\"combat-skill\">「猛虎下山」</span><span class=\"combat-base\">, 但<span class=\"combat-miss\">你一个懒驴打滚, 险之又险地避开了.</span></span>".to_string()]
    );
}

#[test]
fn random_round_keeps_damage_in_range() {
    for _ in 0..30 {
        let mut a = Npc::new_bandit(1, 0);
        let mut d = Npc::new_bandit(2, 0);
        let out = resolve_attack_round(&mut a, &mut d);
        if out.result.is_hit {
            // Strength 12: from 10 up to 15, exclusive.
            assert!((10..15).contains(&out.result.damage_dealt));
            assert_eq!(d.state.derived.hp, 30 - out.result.damage_dealt);
        } else {
            assert_eq!(d.state.derived.hp, 30);
        }
    }
}

#[test]
fn base_room_answers() {
    let r = BaseRoom {
        id: 0,
        name: "Great Hall".to_string(),
        description: "A vast, stone-walled great hall with a large fireplace.".to_string(),
        exits: vec![("north".to_string(), 1)],
    };
    assert_eq!(r.get_id(), 0);
    assert_eq!(r.get_name(), "Great Hall");
    assert_eq!(r.get_description(), "A vast, stone-walled great hall with a large fireplace.");
    assert_eq!(r.get_exits(), &vec![("north".to_string(), 1)]);
    let saved = PersistentPlayerData { state: Npc::new_bandit(3, 1).state, room_id: 1 };
    assert_eq!(saved.room_id, 1);
}


use server::arena::player_state::{BaseAttributes, DerivedStats, PlayerState, Progression};
use server::arena::world::{
    combat_pass, combat_pass_with, join, leave, process_command, Entity, LocationManager, PlayerDatabase, ServerMessage,
    World,
};
use server::world_model::Registry;

fn fresh() -> PlayerState {
    PlayerState {
        base: BaseAttributes { strength: 10, agility: 10, constitution: 10, comprehension: 10 },
        derived: DerivedStats { hp: 100, max_hp: 100, mp: 50, max_mp: 50, stamina: 100, max_stamina: 100 },
        progression: Progression { level: 1, experience: 0, potential: 0 },
    }
}

fn arena_with_bandit() -> (World, LocationManager, PlayerDatabase) {
    let mut w = World::new();
    let mut l = LocationManager::new();
    w.entities.push(Entity::Npc(Npc::new_bandit(1, 1)));
    l.set_room_id(1, 1);
    (w, l, PlayerDatabase { saved: Registry::new() })
}

fn content(m: &ServerMessage) -> String {
    match m {
        ServerMessage::GameMessage { content } => content.clone(),
        _ => String::new(),
    }
}

#[test]
fn arena_join_look_go_kill() {
    let (mut w, mut l, db) = arena_with_bandit();
    let msgs = join(&mut w, &mut l, &db, 2, "Ann".to_string(), fresh());
    assert_eq!(content(&msgs[0]), "Welcome, Ann!\nA vast, stone-walled great hall with a large fireplace.");
    assert!(matches!(msgs[1], ServerMessage::FullState { .. }));

    assert_eq!(
        process_command(&mut w, &mut l, 2, "  LOOK "),
        "Great Hall - A vast, stone-walled great hall with a large fireplace.\nExits: north"
    );
    assert_eq!(process_command(&mut w, &mut l, 2, "go"), "Go where?");
    assert_eq!(process_command(&mut w, &mut l, 2, "go west"), "You can't go that way.");
    assert_eq!(
        process_command(&mut w, &mut l, 2, "go north"),
        "You move north.\nA dimly lit corridor. The Great Hall is to the south.\nExits: south"
    );
    assert_eq!(
        process_command(&mut w, &mut l, 2, "look"),
        "Narrow Corridor - A dimly lit corridor. The Great Hall is to the south.\nExits: south\nYou also see: 强盗"
    );
    assert_eq!(process_command(&mut w, &mut l, 2, "kill"), "Kill what?");
    assert_eq!(process_command(&mut w, &mut l, 2, "kill ann"), "You can't fight yourself.");
    assert_eq!(process_command(&mut w, &mut l, 2, "kill troll"), "There is no one named 'troll' here.");
    assert_eq!(process_command(&mut w, &mut l, 2, "kill 强盗"), "You attack the 强盗!");
    assert_eq!(w.active_combats, vec![(2, 1), (1, 2)]);
    assert_eq!(process_command(&mut w, &mut l, 2, "help"), "Commands: look, go [dir], kill [target], status, help");
    assert_eq!(process_command(&mut w, &mut l, 2, "dance"), "Unknown command.");
    assert_eq!(
        process_command(&mut w, &mut l, 2, "score"),
        "--- Player Status ---\nLevel: 1 | Exp: 0/100\nHP: 100/100 | MP: 50/50\n\nStr: 10 | Agi: 10 | Con: 10 | Comp: 10"
    );
    assert_eq!(process_command(&mut w, &mut l, 9, "look"), "Error: Your player has no location in the world.");
}

#[test]
fn arena_pass_with_draws_kills_and_buries() {
    let (mut w, mut l, db) = arena_with_bandit();
    join(&mut w, &mut l, &db, 2, "Ann".to_string(), fresh());
    process_command(&mut w, &mut l, 2, "go north");
    process_command(&mut w, &mut l, 2, "kill 强盗");
    // Ann strikes for 30 and fells the bandit; its blow back never comes.
    let out = combat_pass_with(&mut w, &mut l, &vec![(0, true, 30), (0, true, 5)]);
    let to_ann: Vec<&ServerMessage> = out.iter().filter(|(id, _)| *id == 2).map(|(_, m)| m).collect();
    assert_eq!(to_ann.len(), 4);
    assert!(content(to_ann[1]).contains("倒在了血泊之中"));
    assert!(matches!(to_ann[3], ServerMessage::DerivedStatsUpdate { .. }));
    assert_eq!(w.entities.len(), 1);
    assert!(w.active_combats.is_empty());
    assert_eq!(l.get_room_id(1), None);
    assert_eq!(w.entities[0].get_state().progression.experience, 50);
}

#[test]
fn arena_random_pass_and_leave_saves() {
    let (mut w, mut l, mut db) = arena_with_bandit();
    join(&mut w, &mut l, &db, 2, "Ann".to_string(), fresh());
    process_command(&mut w, &mut l, 2, "go north");
    process_command(&mut w, &mut l, 2, "kill 强盗");
    for _ in 0..3 {
        combat_pass(&mut w, &mut l);
    }
    leave(&mut w, &mut l, &mut db, 2, "Ann".to_string());
    assert!(w.entities.iter().all(|e| e.get_id() != 2));
    assert_eq!(l.get_room_id(2), None);
    let saved = db.saved.get("Ann").unwrap();
    assert_eq!(saved.room_id, 1);
    let msgs = join(&mut w, &mut l, &db, 3, "Ann".to_string(), fresh());
    assert_eq!(content(&msgs[0]), "Welcome back, Ann!\nA dimly lit corridor. The Great Hall is to the south.");
}

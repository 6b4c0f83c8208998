use std::collections::HashMap;

use server::combat::CombatState;
use server::combat_ticks::{combat_entities, process_combat_ticks, process_combat_ticks_with, tick_actions};
use server::command::Command;
use server::commands::guard::command_in_range;
use server::game::{handle_command, GameState, ServerMessage};
use server::lifecycle::{connect, disconnect, heartbeat, login, room_movement_notices};
use server::npc::Npc;
use server::world::loader::StaticWorldData;
use server::world::world_state::WorldState;
use server::world_model::{
    MonsterTemplate, NpcPrototype, Quest, QuestRewards, Registry, Room, SkillTemplate, WorldConfig,
};

fn room(id: &str, name: &str, exits: &[(&str, &str)]) -> Room {
    Room {
        id: id.to_string(),
        name: name.to_string(),
        description: format!("{}的景致", name),
        exits: exits.iter().map(|(d, r)| (d.to_string(), r.to_string())).collect(),
        npcs: vec![],
        items: vec![],
    }
}

fn static_data(with_tutorial: bool) -> StaticWorldData {
    let mut rooms = Registry::new();
    rooms.insert("genesis_altar".to_string(), room("genesis_altar", "启灵祭坛", &[("north", "bamboo_forest")]));
    rooms.insert("bamboo_forest".to_string(), room("bamboo_forest", "青竹林", &[("south", "genesis_altar")]));
    let mut quests = Registry::new();
    if with_tutorial {
        quests.insert(
            "tutorial_1".to_string(),
            Quest {
                id: "tutorial_1".to_string(),
                name: "初入凡尘".to_string(),
                description: "走出祭坛".to_string(),
                quest_type: "chain".to_string(),
                target_id: String::new(),
                target_count: None,
                steps: vec![],
                rewards: QuestRewards { exp: None, shell: None, potential: None },
            },
        );
    }
    StaticWorldData {
        config: WorldConfig { realms: vec![], combat_tick_ms: 1000, player_display_prefix: "修士".to_string() },
        rooms,
        npc_prototypes: HashMap::<u32, NpcPrototype>::new(),
        item_prototypes: HashMap::new(),
        quests,
        skills: Registry::<SkillTemplate>::new(),
        monsters: Registry::<MonsterTemplate>::new(),
    }
}

fn new_game(with_tutorial: bool) -> GameState {
    GameState { world_state: WorldState::new(static_data(with_tutorial)), player_sessions: vec![] }
}

fn payload(m: &ServerMessage) -> String {
    match m {
        ServerMessage::Description { payload } | ServerMessage::Info { payload } | ServerMessage::Error { payload } => {
            payload.plain()
        }
    }
}

#[test]
fn connections_take_the_smallest_free_id() {
    let mut g = new_game(false);
    assert_eq!(connect(&mut g), 0);
    assert_eq!(connect(&mut g), 1);
    assert_eq!(connect(&mut g), 2);
    disconnect(&mut g, 1);
    assert_eq!(g.player_sessions.len(), 2);
    assert_eq!(g.world_state.get_player_room_id(1), None);
    assert_eq!(connect(&mut g), 1);
    assert_eq!(g.world_state.get_player_room_id(1), Some("genesis_altar".to_string()));
}

#[test]
fn login_names_the_player_and_gives_the_tutorial() {
    let mut g = new_game(true);
    let id = connect(&mut g);
    let greeting = login(&mut g, id, "云中鹤".to_string(), 1234).unwrap();
    let text = payload(&greeting);
    assert!(matches!(greeting, ServerMessage::Description { .. }));
    assert!(text.contains("剑 灵 少 女"));
    assert!(text.contains("启灵祭坛"));
    assert!(text.contains("[任务提示] 你收到了一项新任务：初入凡尘"));
    let s = &g.player_sessions[0];
    assert_eq!(s.user_id, Some("云中鹤".to_string()));
    assert_eq!(s.player.name, "云中鹤");
    assert_eq!(s.player.last_input_time, 1234);
    assert_eq!(s.player.active_quests.len(), 1);
    assert_eq!(s.player.active_quests[0].quest_id, "tutorial_1");
    assert_eq!(g.world_state.get_players_in_room("genesis_altar", 99), vec!["云中鹤".to_string()]);
}

#[test]
fn login_without_tutorial_quest_or_session() {
    let mut g = new_game(false);
    assert!(login(&mut g, 5, "无名".to_string(), 0).is_none());
    let id = connect(&mut g);
    let text = payload(&login(&mut g, id, "甲".to_string(), 0).unwrap());
    assert!(!text.contains("任务提示"));
    assert!(g.player_sessions[0].player.active_quests.is_empty());
}

#[test]
fn movement_is_told_to_the_others_in_both_rooms() {
    let mut g = new_game(false);
    let a = connect(&mut g);
    let b = connect(&mut g);
    let c = connect(&mut g);
    login(&mut g, a, "甲".to_string(), 0);
    login(&mut g, b, "乙".to_string(), 0);
    login(&mut g, c, "丙".to_string(), 0);
    g.world_state.move_player_to_room(c, "bamboo_forest", Some("丙".to_string()));
    let notices = room_movement_notices(&g, "genesis_altar", "bamboo_forest", &Some("甲".to_string()));
    let got: Vec<(u64, String)> = notices.iter().map(|(id, m)| (*id, payload(m))).collect();
    assert_eq!(got, vec![(b, "甲 离开了。".to_string()), (c, "甲 走进了房间。".to_string())]);
    assert!(room_movement_notices(&g, "genesis_altar", "bamboo_forest", &None).is_empty());
}

#[test]
fn heartbeat_recovers_and_reminds_idle_workers() {
    let mut g = new_game(false);
    let a = connect(&mut g);
    let b = connect(&mut g);
    login(&mut g, a, "甲".to_string(), 100);
    g.world_state.move_player_to_room(a, "bamboo_forest", Some("甲".to_string()));
    g.player_sessions[0].player.stamina = 50;
    g.player_sessions[1].player.stamina = 50;
    let hints = heartbeat(&mut g, 131);
    assert_eq!(hints.len(), 1);
    assert_eq!(hints[0].0, a);
    assert!(payload(&hints[0].1).contains("work"));
    assert_eq!(g.player_sessions[0].player.stamina, 56);
    assert_eq!(g.player_sessions[0].player.last_input_time, 131);
    // Not logged in: untouched.
    assert_eq!(g.player_sessions[1].player.stamina, 50);
    assert_eq!(g.player_sessions[1].player.id, b);
    // Reminded just now: no reminder until 30 more seconds pass.
    assert!(heartbeat(&mut g, 161).is_empty());
    assert_eq!(heartbeat(&mut g, 162).len(), 1);
}

#[test]
fn tick_schedule() {
    assert_eq!(tick_actions(10, 500), (true, true));
    assert_eq!(tick_actions(7, 3000), (false, false));
    assert_eq!(tick_actions(9, 3000), (false, true));
}

fn snake(room_id: &str, instance: u64) -> Npc {
    let proto = NpcPrototype {
        name: "翠竹蛇".to_string(),
        title: String::new(),
        description: "一条青蛇".to_string(),
        level: 2,
        ai: "aggressive".to_string(),
        flags: vec![],
        dialog_id: None,
        scripts: vec![],
        display_prefix: String::new(),
    };
    let mut n = Npc::from_prototype(instance, 3002, &proto, room_id.to_string());
    n.hp = 50;
    n.max_hp = 50;
    n.attack = 12;
    n.defense = 5;
    n.level = 2;
    n
}

#[test]
fn combat_round_strikes_and_reports() {
    let mut g = new_game(false);
    let a = connect(&mut g);
    login(&mut g, a, "甲".to_string(), 0);
    let mut npc = snake("genesis_altar", 7);
    npc.combat_state = Some(CombatState::new(a.to_string(), "甲".to_string(), true, "basic".to_string(), 0));
    g.world_state.dynamic_data.npcs.push(npc);
    g.world_state.dynamic_data.next_npc_id = 8;
    g.player_sessions[0].player.combat_state =
        Some(CombatState::new("7".to_string(), "翠竹蛇".to_string(), false, "basic".to_string(), 0));

    let ents = combat_entities(&g);
    assert_eq!(ents.len(), 2);
    assert!(ents[0].is_player && ents[0].id == a && ents[0].defense == 5);
    assert!(!ents[1].is_player && ents[1].id == 7);

    // Both hit, neither crits: the player deals 2 + 2*1 - 5/2 = 2, the snake 12 + 4 - 2 = 14.
    let out = process_combat_ticks_with(&mut g, &vec![(0, 99), (0, 99)]);
    let texts: Vec<(u64, String)> = out.iter().map(|(id, m)| (*id, payload(m))).collect();
    assert_eq!(
        texts,
        vec![
            (a, "你对翠竹蛇使出basic,\n造成了2点伤害。\n真元充沛，毫发无损".to_string()),
            (a, "你对翠竹蛇使出basic,\n造成了14点伤害。\n真元充沛，毫发无损".to_string()),
        ]
    );
    assert_eq!(g.player_sessions[0].player.hp, 190 - 14);
    // The snake's hit points are not changed by the round.
    assert_eq!(g.world_state.dynamic_data.npcs[0].hp, 50);

    // Misses.
    let out = process_combat_ticks_with(&mut g, &vec![(99, 0), (99, 0)]);
    let texts: Vec<(u64, String)> = out.iter().map(|(id, m)| (*id, payload(m))).collect();
    assert_eq!(
        texts,
        vec![(a, "你对翠竹蛇的攻击落空了！".to_string()), (a, "你对翠竹蛇的攻击落空了！".to_string())]
    );

    // A random round changes nothing but hit points.
    let before = g.player_sessions[0].player.hp;
    process_combat_ticks(&mut g);
    assert!(g.player_sessions[0].player.hp <= before);
}

fn texts(msgs: &[ServerMessage]) -> Vec<String> {
    msgs.iter().map(payload).collect()
}

#[test]
fn commands_need_a_login_and_a_session() {
    let mut g = new_game(false);
    let out = handle_command(&mut g, Command::Look, 7, 10);
    assert!(out.messages.is_empty());
    let id = connect(&mut g);
    let out = handle_command(&mut g, Command::Look, id, 10);
    assert_eq!(texts(&out.messages), vec!["You must login first.".to_string()]);
    assert!(matches!(out.messages[0], ServerMessage::Error { .. }));
    assert!(out.movement.is_none());
}

#[test]
fn each_command_goes_to_its_handler() {
    let mut g = new_game(false);
    let id = connect(&mut g);
    login(&mut g, id, "甲".to_string(), 0);
    let cases: Vec<(Command, &str)> = vec![
        (Command::Go { direction: "west".to_string() }, "You can't go that way."),
        (Command::Attack { target: "蛇".to_string() }, "你在这没看到 蛇。"),
        (Command::Kill { target: "蛇".to_string() }, "这里没有 蛇。"),
        (Command::Cast { skill: "fireball".to_string(), target: None }, "没有找到技能: fireball"),
        (Command::Talk { target: "老人".to_string() }, "这里没有 老人。"),
        (Command::Get { item: "剑".to_string() }, "这里没有 剑。"),
        (Command::Accept { quest_id: "q1".to_string() }, "这里没有告示牌，去野外入口找找看吧。"),
        (Command::Inventory, "你两手空空。"),
        (Command::Quest, "当前没有任何进行中的任务。"),
        (Command::Work, "这里似乎没有什么值得你劳作的地方，换个环境试试？"),
        (Command::Say { message: "你好".to_string() }, "Command not yet implemented."),
        (Command::Unknown("dance".to_string()), "Unknown command: dance"),
    ];
    for (command, expected) in cases {
        let out = handle_command(&mut g, command, id, 5);
        assert_eq!(texts(&out.messages), vec![expected.to_string()]);
        assert!(out.movement.is_none());
    }
    assert!(handle_command(&mut g, Command::Unknown("heartbeat".to_string()), id, 6).messages.is_empty());
    assert_eq!(g.player_sessions[0].player.last_input_time, 6);
}

#[test]
fn going_through_an_exit_moves_and_announces() {
    let mut g = new_game(false);
    let id = connect(&mut g);
    login(&mut g, id, "甲".to_string(), 0);
    let stamina = g.player_sessions[0].player.stamina;
    let out = handle_command(&mut g, Command::Go { direction: "north".to_string() }, id, 3);
    assert_eq!(out.messages.len(), 1);
    assert!(matches!(out.messages[0], ServerMessage::Description { .. }));
    assert!(payload(&out.messages[0]).contains("青竹林"));
    assert_eq!(
        out.movement,
        Some(("genesis_altar".to_string(), "bamboo_forest".to_string(), Some("甲".to_string())))
    );
    assert_eq!(g.world_state.get_player_room_id(id), Some("bamboo_forest".to_string()));
    assert_eq!(g.player_sessions[0].player.stamina, stamina - 1);
}

#[test]
fn a_resting_player_may_only_look_around() {
    let mut g = new_game(false);
    let id = connect(&mut g);
    login(&mut g, id, "甲".to_string(), 0);
    let out = handle_command(&mut g, Command::Rest, id, 1);
    assert_eq!(texts(&out.messages), vec!["你开始原地休息，逐渐恢复精力。".to_string()]);
    let out = handle_command(&mut g, Command::Go { direction: "north".to_string() }, id, 2);
    assert_eq!(texts(&out.messages), vec!["你正在休息中，无法执行此操作。".to_string()]);
    assert_eq!(g.world_state.get_player_room_id(id), Some("genesis_altar".to_string()));
    let out = handle_command(&mut g, Command::Look, id, 3);
    assert!(payload(&out.messages[0]).contains("启灵祭坛"));
    let out = handle_command(&mut g, Command::Rest, id, 4);
    assert_eq!(texts(&out.messages), vec!["你站了起来，感觉精力充沛了一些。".to_string()]);
}

#[test]
fn a_second_tick_spawns_nothing() {
    let mut data = static_data(false);
    let mut den = room("snake_den", "蛇窟", &[]);
    den.npcs = vec![100];
    data.rooms.insert("snake_den".to_string(), den);
    data.npc_prototypes.insert(
        100,
        NpcPrototype {
            name: "青蛇".to_string(),
            title: String::new(),
            description: String::new(),
            level: 1,
            ai: String::new(),
            flags: vec![],
            dialog_id: None,
            scripts: vec![],
            display_prefix: String::new(),
        },
    );
    let mut w = WorldState::new(data);
    assert_eq!(w.count_npcs_in("snake_den"), 1);
    let first = w.dynamic_data.npcs[0].instance_id;
    w.remove_npc(first);
    assert_eq!(w.count_npcs_in("snake_den"), 0);
    w.tick();
    assert_eq!(w.count_npcs_in("snake_den"), 1);
    let after_one = (w.dynamic_data.npcs.len(), w.dynamic_data.next_npc_id);
    w.tick();
    assert_eq!((w.dynamic_data.npcs.len(), w.dynamic_data.next_npc_id), after_one);
}

#[test]
fn commands_out_of_range_are_caught_before_they_run() {
    let mut g = new_game(false);
    let id = connect(&mut g);
    login(&mut g, id, "甲".to_string(), 0);
    assert!(command_in_range(&g, id, &Command::Work));
    assert!(command_in_range(&g, id, &Command::Go { direction: "north".to_string() }));
    assert!(command_in_range(&g, 99, &Command::Work));
    g.player_sessions[0].player.wallet.shell = u64::MAX - 10;
    assert!(!command_in_range(&g, id, &Command::Work));
    assert!(command_in_range(&g, id, &Command::Look));
}

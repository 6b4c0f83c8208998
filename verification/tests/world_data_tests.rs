use std::collections::HashMap;

use server::gotify::{task_complete_message, task_complete_title, GotifyClient, NOTIFICATION_PRIORITY};
use server::ui::{parse_realm_level, realm_level_to_name};
use server::world::event::{EventBus, EventHandler, GameEvent, PlayerAttackEvent, PlayerKilledEvent};
use server::world::item_registry::ItemRegistry;
use server::world::world_config::{default_combat_tick_ms, default_player_display_prefix, WorldConfig};
use server::world::world_item::ItemPrototype;
use server::world::world_loader::{load_world_data, parse_u32, parse_u64};
use server::world::world_zone::Zone;
use server::world::world_player::Player;
use server::world_model::{NpcPrototype, Registry};

#[test]
fn numbers_read_as_parse_does() {
    assert_eq!(parse_u32("3002"), Some(3002));
    assert_eq!(parse_u32("+7"), Some(7));
    assert_eq!(parse_u32("007"), Some(7));
    assert_eq!(parse_u32("4294967295"), Some(u32::MAX));
    assert_eq!(parse_u32("4294967296"), None);
    assert_eq!(parse_u32(""), None);
    assert_eq!(parse_u32("+"), None);
    assert_eq!(parse_u32("-1"), None);
    assert_eq!(parse_u32("12a"), None);
    assert_eq!(parse_u32(" 1"), None);
    assert_eq!(parse_u64("18446744073709551615"), Some(u64::MAX));
    assert_eq!(parse_u64("18446744073709551616"), None);
    for n in [0u32, 9, 10, 99, 100, 65535, u32::MAX] {
        assert_eq!(parse_u32(&n.to_string()), Some(n));
        assert_eq!(parse_u32(&n.to_string()), n.to_string().parse::<u32>().ok());
    }
}

fn item(id: u32, name: &str) -> ItemPrototype {
    ItemPrototype { id, name: name.to_string(), description: String::new() }
}

fn npc(name: &str) -> NpcPrototype {
    NpcPrototype {
        name: name.to_string(),
        title: String::new(),
        description: String::new(),
        level: 1,
        ai: String::new(),
        flags: vec![],
        dialog_id: None,
        scripts: vec![],
        display_prefix: String::new(),
    }
}

#[test]
fn world_data_keys_prototypes_by_number_and_zones_by_id() {
    let config = WorldConfig { realms: vec![], combat_tick_ms: default_combat_tick_ms(), player_display_prefix: default_player_display_prefix() };
    assert_eq!(config.combat_tick_ms, 500);
    assert_eq!(config.player_display_prefix, "修士");
    let items = vec![("1".to_string(), item(1, "木剑")), ("02".to_string(), item(2, "布衣")), ("2".to_string(), item(2, "草鞋"))];
    let npcs = vec![("3002".to_string(), npc("翠竹蛇"))];
    let zones = vec![
        Zone { id: "town".to_string(), name: "旧镇".to_string(), rooms: HashMap::new() },
        Zone { id: "wild".to_string(), name: "荒野".to_string(), rooms: HashMap::new() },
        Zone { id: "town".to_string(), name: "新镇".to_string(), rooms: HashMap::new() },
    ];
    let d = load_world_data(config, items, npcs, zones);
    assert_eq!(d.item_prototypes.len(), 2);
    assert_eq!(d.item_prototypes[&2].name, "草鞋");
    assert_eq!(d.npc_prototypes[&3002].name, "翠竹蛇");
    assert_eq!(d.zones.get("town").unwrap().name, "新镇");
    assert_eq!(d.zones.get("wild").unwrap().name, "荒野");
    assert!(d.zones.get("cave").is_none());
}

#[test]
fn item_registry_finds_by_id() {
    let mut m = HashMap::new();
    m.insert(7u32, item(7, "灵石"));
    let reg = ItemRegistry::new(m);
    assert_eq!(reg.get_prototype(&7).unwrap().name, "灵石");
    assert!(reg.get_prototype(&8).is_none());
}

#[test]
fn table_read_after_write() {
    let mut t: Registry<u32> = Registry::new();
    t.insert("a".to_string(), 1);
    t.upsert("b".to_string(), 2);
    t.upsert("a".to_string(), 3);
    assert_eq!(t.get("a"), Some(&3));
    assert_eq!(t.get("b"), Some(&2));
    assert!(!t.contains_key("c"));
    assert_eq!(t.entries.len(), 2);
}

#[test]
fn gotify_texts() {
    let c = GotifyClient::new("https://push.example.org".to_string(), "SECRET-REDACTED".to_string());
    assert_eq!(c.message_endpoint(), "https://push.example.org/message");
    assert_eq!(c.token(), "SECRET-REDACTED");
    assert_eq!(task_complete_title("部署"), "[RustMUD] 任务完成: 部署");
    assert_eq!(task_complete_message("全部完成", "2024-01-01 00:00:00"), "全部完成\n\n时间: 2024-01-01 00:00:00");
    assert_eq!(NOTIFICATION_PRIORITY, 5);
}

#[test]
fn realm_names_read_back() {
    for level in 1..=5u16 {
        for sub in 1..=9u16 {
            assert_eq!(parse_realm_level(&realm_level_to_name(level, sub)), (level, sub));
        }
    }
    assert_eq!(realm_level_to_name(1, 3), "炼气三层");
    assert_eq!(realm_level_to_name(7, 1), "境界7");
}

struct Counter {
    seen: usize,
}

impl EventHandler for Counter {
    fn handles(&self, _event: GameEvent, next: Self) -> bool {
        next.seen == self.seen + 1
    }

    fn handle(&mut self, _event: &GameEvent) {
        self.seen += 1;
    }
}

#[test]
fn event_bus_accepts_subscribers_and_posts() {
    let mut bus: EventBus<Counter> = EventBus::new();
    bus.subscribe::<PlayerAttackEvent>(Counter { seen: 0 });
    bus.subscribe::<PlayerAttackEvent>(Counter { seen: 0 });
    bus.subscribe::<PlayerKilledEvent>(Counter { seen: 0 });
    bus.post(PlayerAttackEvent { attacker_id: 1, defender_id: 2 });
    bus.post(PlayerKilledEvent { victim_id: 2, killer_id: 1 });
}

#[test]
fn money_added_then_spent_restores_the_wallet() {
    let mut p = Player::new(1, "甲".to_string());
    let before = (p.wallet.crystal, p.wallet.shell);
    p.add_money(3, 40);
    assert!(p.spend_money(3, 40));
    assert_eq!((p.wallet.crystal, p.wallet.shell), before);
    assert!(!p.spend_money(1, 0));
}

#[test]
fn stamina_spent_only_when_enough() {
    let mut p = Player::new(1, "甲".to_string());
    assert!(p.is_stamina_enough(100));
    assert!(p.consume_stamina(60));
    assert_eq!(p.stamina, 40);
    assert!(!p.consume_stamina(41));
    assert_eq!(p.stamina, 40);
    p.on_heartbeat_recovery();
    assert_eq!(p.stamina, 46);
    p.stamina = 98;
    p.on_heartbeat_recovery();
    assert_eq!(p.stamina, 100);
}

use server::world::loader::{data_file_kind, load_all_data, DataFile, DataFileKind};
use server::world_model::{ItemZoneData, NpcZoneData, QuestRegistry, Room, ZoneData, WorldConfig as ModelConfig, Quest, QuestRewards};

#[test]
fn data_files_by_name() {
    assert_eq!(data_file_kind("wild_npcs.json"), DataFileKind::Npcs);
    assert_eq!(data_file_kind("npcs.json"), DataFileKind::Npcs);
    assert_eq!(data_file_kind("town_items.json"), DataFileKind::Items);
    assert_eq!(data_file_kind("quest_registry.json"), DataFileKind::QuestRegistry);
    assert_eq!(data_file_kind("old_quest_registry.json"), DataFileKind::Other);
    assert_eq!(data_file_kind("world_config.json"), DataFileKind::Other);
}

fn plain_room(id: &str, name: &str) -> Room {
    Room { id: id.to_string(), name: name.to_string(), description: String::new(), exits: vec![], npcs: vec![], items: vec![] }
}

#[test]
fn static_data_assembled_from_files() {
    let zones = vec![
        ZoneData { zone: "a".to_string(), name: "A".to_string(), rooms: vec![plain_room("r1", "一"), plain_room("r2", "二")] },
        ZoneData { zone: "b".to_string(), name: "B".to_string(), rooms: vec![plain_room("r1", "新一")] },
    ];
    let quest = Quest {
        id: "q201".to_string(),
        name: "清缴翠竹蛇".to_string(),
        description: String::new(),
        quest_type: "kill".to_string(),
        target_id: "3002".to_string(),
        target_count: Some(10),
        steps: vec![],
        rewards: QuestRewards { exp: Some(500), shell: Some(200), potential: None },
    };
    let mut quests = Registry::new();
    quests.insert("q201".to_string(), quest);
    let files = vec![
        DataFile::Npcs(NpcZoneData { zone: "a".to_string(), entities: vec![(3002, npc("翠竹蛇"))] }),
        DataFile::Items(ItemZoneData { zone: "a".to_string(), items: vec![(1, item(1, "木剑"))] }),
        DataFile::Npcs(NpcZoneData { zone: "b".to_string(), entities: vec![(3002, npc("青蛇"))] }),
        DataFile::Quests(QuestRegistry { quests }),
    ];
    let config = ModelConfig { realms: vec![], combat_tick_ms: 500, player_display_prefix: "修士".to_string() };
    let d = load_all_data(config, zones, files, Registry::new(), Registry::new());
    assert_eq!(d.rooms.get("r1").unwrap().name, "新一");
    assert_eq!(d.rooms.get("r2").unwrap().name, "二");
    assert_eq!(d.npc_prototypes[&3002].name, "青蛇");
    assert_eq!(d.item_prototypes[&1].name, "木剑");
    assert!(d.quests.contains_key("q201"));
    assert_eq!(d.config.combat_tick_ms, 500);
}

#[test]
fn other_realms_read_back_as_nothing() {
    for sub in 1..=9u16 {
        assert_eq!(parse_realm_level(&realm_level_to_name(0, sub)), (0, 0));
        assert_eq!(parse_realm_level(&realm_level_to_name(6, sub)), (0, 0));
        assert_eq!(parse_realm_level(&realm_level_to_name(12, sub)), (0, 0));
    }
}

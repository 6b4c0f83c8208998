use server::world::map_config::{MapConfig, NpcConfig, RoomConfig, SpawnConfig};
use server::world::world::World;

fn room(id: &str, exits: &[(&str, &str)], npcs: &[u64], spawns: &[u64]) -> RoomConfig {
    RoomConfig {
        id: id.to_string(),
        name: id.to_uppercase(),
        description: format!("{} 的描述", id),
        spawns: spawns.iter().map(|n| SpawnConfig { npc: *n, max: 1 }).collect(),
        exits: exits.iter().map(|(d, r)| (d.to_string(), r.to_string())).collect(),
        npcs: npcs.to_vec(),
    }
}

fn npc(id: u64, room: &str) -> NpcConfig {
    NpcConfig { id, name: format!("npc{}", id), description: String::new(), starting_room: room.to_string() }
}

fn map(rooms: Vec<RoomConfig>, npcs: Vec<NpcConfig>) -> MapConfig {
    MapConfig { zone: "z".to_string(), name: "map".to_string(), rooms, npcs }
}

#[test]
fn npc_numbers_move_up_by_one_hundred_per_map() {
    let maps = vec![
        map(vec![room("a", &[("east", "b")], &[1], &[]), room("b", &[("west", "a")], &[], &[2])], vec![npc(1, "a"), npc(2, "b")]),
        map(vec![room("c", &[("down", "a")], &[1], &[])], vec![npc(1, "c")]),
    ];
    let w = World::new(maps).expect("the maps are consistent");
    assert_eq!(w.get_room("a").unwrap().npcs, vec![1]);
    assert_eq!(w.get_room("b").unwrap().npcs, vec![2]);
    assert_eq!(w.get_room("c").unwrap().npcs, vec![101]);
    assert_eq!(w.get_room("c").unwrap().exits, vec![("down".to_string(), "a".to_string())]);
    assert_eq!(w.npcs.get(&101).unwrap().room, "c");
    assert_eq!(w.npcs.get(&101).unwrap().id, 101);
    assert!(w.npcs.contains_key(&1) && w.npcs.contains_key(&2));
    assert!(w.get_room("z").is_none());
}

#[test]
fn exits_and_npcs_that_lead_nowhere_are_refused() {
    let bad_exit = vec![map(vec![room("a", &[("east", "nowhere")], &[], &[])], vec![])];
    assert!(World::new(bad_exit).is_none());
    let bad_npc = vec![map(vec![room("a", &[], &[7], &[])], vec![npc(1, "a")])];
    assert!(World::new(bad_npc).is_none());
    let later_wins = vec![
        map(vec![room("a", &[("east", "nowhere")], &[], &[])], vec![]),
        map(vec![room("a", &[], &[], &[])], vec![]),
    ];
    let w = World::new(later_wins).expect("the room kept has no bad exit");
    assert!(w.get_room("a").unwrap().exits.is_empty());
}

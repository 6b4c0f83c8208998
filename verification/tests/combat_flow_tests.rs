use server::combat::{self, CombatStats};

fn player_stats(name: &str) -> CombatStats {
    CombatStats {
        hp: 190,
        max_hp: 190,
        attack: 47,
        defense: 5,
        level: 1,
        name: name.to_string(),
        is_player: true,
        str: 16,
        dex: 16,
        int: 16,
    }
}

fn npc_stats(name: &str) -> CombatStats {
    CombatStats {
        hp: 50,
        max_hp: 50,
        attack: 12,
        defense: 5,
        level: 2,
        name: name.to_string(),
        is_player: false,
        str: 10,
        dex: 10,
        int: 10,
    }
}

#[test]
fn test_combat_flow() {
    let player_stats = player_stats("test_player");
    let npc_stats = npc_stats("翠竹蛇");

    println!("\n=== 战斗流程测试 ===");
    println!("玩家: HP={}, ATK={}, LVL={}", player_stats.hp, player_stats.attack, player_stats.level);
    println!("怪物: HP={}, ATK={}, LVL={}", npc_stats.hp, npc_stats.attack, npc_stats.level);

    let mut player_hp = player_stats.hp;
    let mut npc_hp = npc_stats.hp;

    for round in 1..=10 {
        if npc_hp <= 0 {
            println!("\n回合{} - 怪物死亡! 战斗结束", round);
            break;
        }

        let result = combat::resolve_attack(&player_stats, &npc_stats, None);
        match result {
            combat::CombatResult::Hit { damage, is_crit, log: _ } => {
                npc_hp -= damage;
                println!("回合{} - 玩家攻击: 伤害={}, 暴击={}, 怪物HP={}", round, damage, is_crit, npc_hp);
            }
            combat::CombatResult::Miss { log: _ } => {
                println!("回合{} - 玩家攻击: 落空!", round);
            }
            _ => {}
        }

        if npc_hp <= 0 {
            println!("回合{} - 怪物死亡! 战斗结束", round);
            break;
        }

        if player_hp <= 0 {
            println!("回合{} - 玩家死亡! 战斗结束", round);
            break;
        }

        let result = combat::resolve_attack(&npc_stats, &player_stats, None);
        match result {
            combat::CombatResult::Hit { damage, is_crit, log: _ } => {
                player_hp -= damage;
                println!("回合{} - 怪物攻击: 伤害={}, 暴击={}, 玩家HP={}", round, damage, is_crit, player_hp);
            }
            combat::CombatResult::Miss { log: _ } => {
                println!("回合{} - 怪物攻击: 落空!", round);
            }
            _ => {}
        }
    }

    println!("\n=== 战斗测试完成 ===");
    println!("最终结果: 玩家HP={}, 怪物HP={}", player_hp, npc_hp);

    assert!(npc_hp <= 0 || player_hp <= 0, "战斗应该分出胜负");
}

#[test]
fn test_damage_calculation() {
    let player = player_stats("玩家");
    let npc = npc_stats("怪物");

    println!("\n=== 伤害计算测试 ===");

    let base_dmg = combat::calculate_base_damage(&player);
    let reduction = combat::calculate_defense_reduction(base_dmg, npc.defense);

    println!("基础伤害: {} (attack={} + level*2={})", base_dmg, player.attack, player.level * 2);
    println!("防御减免: {} (defense/2 = {})", reduction, npc.defense / 2);
    println!("最终伤害: {}", reduction);

    assert!(reduction > 0, "伤害应该大于0");
    assert_eq!(base_dmg, 49);
    assert_eq!(reduction, 47);
    println!("=== 伤害计算测试完成 ===\n");
}

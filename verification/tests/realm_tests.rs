use server::world::world_player::Player;

#[test]
fn test_realm_and_level_up_system() {
    // 1. Create a new player
    let mut player = Player::new_character(1, "测试员".to_string(), "凡根".to_string());

    // 2. Verify initial stats (level 1, realm 1)
    assert_eq!(player.realm_level, 1);
    assert_eq!(player.realm_sub_level, 1);
    assert_eq!(player.exp, 0);

    let initial_hp = player.hp_max;
    let initial_atk = player.atk;
    // hp = con*10 + 30*1 = 16*10 + 30 = 190; atk = 2*1 = 2
    assert_eq!(initial_hp, 190);
    assert_eq!(initial_atk, 2);

    // 3. Enough exp for level 2 (100), with 50 left over
    let msg = player.add_exp(150).plain();

    assert_eq!(player.realm_sub_level, 2);
    assert_eq!(player.exp, 50);
    assert_eq!(player.hp_max, 16 * 10 + 30 * 2); // 220
    assert_eq!(player.atk, 2 * 2); // 4
    assert!(msg.contains("炼气第2层"));

    // 5. Enough exp to reach level 9
    let exp_to_9 = 400 + 900 + 1600 + 2500 + 3600 + 4900 + 6400;
    player.add_exp(exp_to_9);

    assert_eq!(player.realm_sub_level, 9);
    assert_eq!(player.hp_max, 16 * 10 + 30 * 9); // 430
    assert_eq!(player.atk, 2 * 9); // 18

    // 6. At the bottleneck, check_promotion names the pill
    player.add_exp(8050);
    assert_eq!(player.exp, 8100);

    let promo_msg = player.check_promotion().plain();
    assert!(promo_msg.contains("筑基丹"));
    assert!(promo_msg.contains("瓶颈"));
}

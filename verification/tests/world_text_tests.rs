use server::world::world_player::Player;
use server::world::world_text::{render, render_names, replace_all, RenderContext};

#[test]
fn test_render_combat_message() {
    let attacker = Player::new(1, "张三".to_string());
    let defender = Player::new(2, "李四".to_string());
    let context = RenderContext {
        attacker: &attacker,
        defender: &defender,
        body_part: "胸口",
        weapon: "长剑",
    };
    let template = "$N手中$w化作一道寒光刺向$n的$l";
    let message = render(template, &context);
    assert_eq!(message, "张三手中长剑化作一道寒光刺向李四的胸口");
}

#[test]
fn render_replaces_every_occurrence() {
    assert_eq!(render_names("$N打$N, $n躲$n", "甲", "乙", "", ""), "甲打甲, 乙躲乙");
    assert_eq!(replace_all("aaa", "aa", "b"), "ba");
    assert_eq!(replace_all("no marks", "$N", "x"), "no marks");
}

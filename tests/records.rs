use libsts::{BossRelicChoice, Card};

#[test]
fn skipped_boss_relic_differs_from_an_empty_pick() {
    let skipped = BossRelicChoice {
        picked: None,
        not_picked: vec!["Astrolabe".to_string(), "Sozu".to_string()],
    };
    let empty_pick = BossRelicChoice {
        picked: Some(String::new()),
        not_picked: vec!["Astrolabe".to_string(), "Sozu".to_string()],
    };
    assert_ne!(skipped, empty_pick);
    assert_eq!(skipped.clone(), skipped);
}

#[test]
fn card_fields_are_kept() {
    let card = Card {
        id: "Strike_R".to_string(),
        misc: 0,
        upgrades: 1,
    };
    let copy = card.clone();
    assert_eq!(copy.id, "Strike_R");
    assert_eq!(copy.upgrades, 1);
    assert_eq!(copy, card);
}

use battle_logic::gui::{cancel_task_actions, chat_actions, shows_suggestions, ChatClick, GuiAction};
use battle_logic::orders::SoldierDirective;
use battle_logic::textures::{image_bytes, mesh_is_drawable, rgba_bytes, TextureCache, TextureImage, TextureKey};

fn image(width: usize, height: usize, fill: u8) -> TextureImage {
    TextureImage { width, height, pixels: vec![[fill, fill, fill, 255]; width * height] }
}

#[test]
fn pixels_become_four_bytes_each() {
    assert_eq!(rgba_bytes(&vec![[1, 2, 3, 4], [5, 6, 7, 8]]), vec![1, 2, 3, 4, 5, 6, 7, 8]);
    assert!(rgba_bytes(&vec![]).is_empty());
    assert_eq!(image_bytes(&image(2, 1, 9)), vec![9, 9, 9, 255, 9, 9, 9, 255]);
}

#[test]
fn a_full_update_replaces_the_image() {
    let mut cache = TextureCache::new();
    let key = TextureKey::Managed(0);
    assert!(cache.apply(key, image(2, 2, 1), None));
    assert!(cache.apply(key, image(3, 1, 2), None));
    let kept = cache.get(key).unwrap();
    assert_eq!((kept.width, kept.height), (3, 1));
    assert!(cache.get(TextureKey::User(0)).is_none());
}

#[test]
fn a_patch_is_written_row_by_row() {
    let mut cache = TextureCache::new();
    let key = TextureKey::Managed(1);
    cache.apply(key, image(4, 3, 0), None);
    let patch = TextureImage { width: 2, height: 2, pixels: vec![[1; 4], [2; 4], [3; 4], [4; 4]] };
    assert!(cache.patch_fits_image(key, 1, 1, &patch));
    assert!(cache.apply(key, patch, Some((1, 1))));
    let kept = cache.get(key).unwrap();
    let z = [0, 0, 0, 255];
    assert_eq!(
        kept.pixels,
        vec![z, z, z, z, z, [1; 4], [2; 4], z, z, [3; 4], [4; 4], z]
    );
}

#[test]
fn a_patch_over_the_whole_image_replaces_it() {
    let mut cache = TextureCache::new();
    let key = TextureKey::User(3);
    cache.apply(key, image(2, 2, 0), None);
    let patch = TextureImage { width: 2, height: 2, pixels: vec![[1; 4], [2; 4], [3; 4], [4; 4]] };
    cache.apply(key, patch, Some((0, 0)));
    assert_eq!(cache.get(key).unwrap().pixels, vec![[1; 4], [2; 4], [3; 4], [4; 4]]);
}

#[test]
fn patches_that_do_not_fit_are_recognised() {
    let mut cache = TextureCache::new();
    let key = TextureKey::Managed(1);
    cache.apply(key, image(4, 3, 0), None);
    let patch = TextureImage { width: 2, height: 2, pixels: vec![[1; 4]; 4] };
    assert!(!cache.patch_fits_image(key, 3, 2, &patch));
    let ragged = TextureImage { width: 2, height: 2, pixels: vec![[1; 4]; 3] };
    assert!(!cache.patch_fits_image(key, 0, 0, &ragged));
    let empty_width = TextureImage { width: 0, height: 0, pixels: vec![] };
    assert!(!cache.patch_fits_image(key, 0, 0, &empty_width));
    // without a kept image any patch is simply dropped
    assert!(cache.patch_fits_image(TextureKey::User(5), 100, 100, &patch));
    assert!(!cache.apply(TextureKey::User(5), patch, Some((100, 100))));
    assert!(cache.get(TextureKey::User(5)).is_none());
}

#[test]
fn freeing_drops_only_that_texture() {
    let mut cache = TextureCache::new();
    cache.apply(TextureKey::Managed(1), image(1, 1, 1), None);
    cache.apply(TextureKey::User(1), image(1, 1, 2), None);
    cache.free(TextureKey::Managed(1));
    assert!(cache.get(TextureKey::Managed(1)).is_none());
    assert_eq!(cache.get(TextureKey::User(1)).unwrap().pixels, vec![[2, 2, 2, 255]]);
    cache.free(TextureKey::Managed(7));
    assert!(cache.get(TextureKey::User(1)).is_some());
}

#[test]
fn only_meshes_of_three_vertices_or_more_are_drawn() {
    assert!(!mesh_is_drawable(2));
    assert!(mesh_is_drawable(3));
}

#[test]
fn suggestions_show_while_text_is_typed() {
    assert!(!shows_suggestions("   "));
    assert!(!shows_suggestions("\t\u{a0}\u{3000}\u{2028}\n"));
    assert!(!shows_suggestions(""));
    assert!(shows_suggestions(" flank "));
    assert!(shows_suggestions("\u{200b}"));
}

#[test]
fn a_suggestion_runs_the_typed_text_and_its_id() {
    let actions = chat_actions("  squad 3  ", ChatClick::Suggestion("sneak_flank".to_string()));
    assert_eq!(actions.len(), 3);
    assert!(matches!(&actions[0], GuiAction::SendChatCommand(c) if c == "squad 3 sneak_flank"));
    assert!(matches!(&actions[1], GuiAction::SelectTemplate(None)));
    assert!(matches!(&actions[2], GuiAction::ToggleChatGui));
    let actions = chat_actions("\u{3000}go\u{a0}", ChatClick::Suggestion("hold".to_string()));
    assert!(matches!(&actions[0], GuiAction::SendChatCommand(c) if c == "go hold"));
    let actions = chat_actions(" ", ChatClick::Suggestion("hold".to_string()));
    assert!(matches!(&actions[0], GuiAction::SendChatCommand(c) if c == "hold"));
}

#[test]
fn presets_and_confirmation() {
    let a = chat_actions("", ChatClick::SuppressFirePreset);
    assert!(matches!(&a[..], [GuiAction::SelectTemplate(Some(t))] if t == "suppress_fire"));
    let a = chat_actions("", ChatClick::SneakFlankPreset);
    assert!(matches!(&a[..], [GuiAction::SelectTemplate(Some(t))] if t == "sneak_flank"));
    let a = chat_actions("", ChatClick::CancelPreset);
    assert!(matches!(&a[..], [GuiAction::SelectTemplate(None)]));
    let a = chat_actions("", ChatClick::Confirm("suppress_fire".to_string()));
    assert!(matches!(&a[0], GuiAction::SendChatCommand(c) if c == "suppress_fire"));
    assert!(matches!(&a[1], GuiAction::SelectTemplate(None)));
    assert!(matches!(&a[2], GuiAction::ToggleChatGui));
}

#[test]
fn cancelling_a_task_stands_its_squads_down() {
    let a = cancel_task_actions(8, &vec![Some(vec![1, 2]), None, Some(vec![5])]);
    assert_eq!(a.len(), 1 + 9);
    assert!(matches!(a[0], GuiAction::RemoveChatTask(8)));
    assert!(matches!(a[1], GuiAction::Soldier(1, SoldierDirective::OrderIdle)));
    assert!(matches!(a[2], GuiAction::Soldier(1, SoldierDirective::BehaviorIdleCrouched)));
    assert!(matches!(a[3], GuiAction::Soldier(1, SoldierDirective::GestureIdle)));
    assert!(matches!(a[4], GuiAction::Soldier(2, SoldierDirective::OrderIdle)));
    assert!(matches!(a[7], GuiAction::Soldier(5, SoldierDirective::OrderIdle)));
    let a = cancel_task_actions(1, &vec![]);
    assert_eq!(a.len(), 1);
}

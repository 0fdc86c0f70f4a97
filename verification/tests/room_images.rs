use vellum_fe::config::room_images::{
    merge_room_images, split_room_images, RoomImageDef, RoomImageIndex, RoomImagesConfig,
};
use vellum_fe::named::NamedMap;

fn cfg(images: Vec<RoomImageDef>) -> RoomImagesConfig {
    RoomImagesConfig { images, names: NamedMap::new() }
}

fn def(name: &str, rooms: &[u64]) -> RoomImageDef {
    RoomImageDef { name: name.to_string(), rooms: rooms.to_vec(), presentation: 0 }
}

#[test]
fn split_keeps_character_entries_in_the_character_file() {
    let global_prior = cfg(vec![def("shared", &[1])]);
    let character_prior = cfg(vec![def("mine", &[2])]);
    let merged = cfg(vec![def("shared", &[1]), def("mine", &[2, 3])]);

    let (character_out, global_out) = split_room_images(&merged, &character_prior, &global_prior);

    assert_eq!(character_out.images.len(), 1);
    assert_eq!(character_out.images[0].name, "mine");
    assert_eq!(character_out.images[0].rooms, vec![2, 3]);
    assert_eq!(global_out.images.len(), 1);
    assert_eq!(global_out.images[0].name, "shared");
}

#[test]
fn split_sends_new_entries_to_global() {
    let global_prior = cfg(vec![]);
    let character_prior = cfg(vec![]);
    let merged = cfg(vec![def("fresh", &[9])]);

    let (character_out, global_out) = split_room_images(&merged, &character_prior, &global_prior);

    assert!(character_out.images.is_empty());
    assert_eq!(global_out.images.len(), 1);
    assert_eq!(global_out.images[0].name, "fresh");
}

#[test]
fn split_preserves_shadowed_global_entries() {
    let global_prior = cfg(vec![def("pier", &[1])]);
    let character_prior = cfg(vec![def("pier", &[1, 2])]);
    let merged = cfg(vec![def("pier", &[1, 2])]);

    let (character_out, global_out) = split_room_images(&merged, &character_prior, &global_prior);

    assert_eq!(character_out.images.len(), 1);
    assert_eq!(character_out.images[0].rooms, vec![1, 2]);
    assert_eq!(global_out.images.len(), 1, "shadowed global copy must survive");
    assert_eq!(global_out.images[0].rooms, vec![1], "global keeps ITS version");
}

#[test]
fn split_deletion_removes_the_entry_everywhere() {
    let global_prior = cfg(vec![def("pier", &[1])]);
    let character_prior = cfg(vec![def("pier", &[1, 2])]);
    let merged = cfg(vec![]);

    let (character_out, global_out) = split_room_images(&merged, &character_prior, &global_prior);

    assert!(character_out.images.is_empty());
    assert!(global_out.images.is_empty());
}

#[test]
fn split_sends_labels_to_the_file_that_owns_their_uid() {
    let mut global_prior = cfg(vec![]);
    global_prior.names.insert("1".to_string(), "Old One".to_string());
    global_prior.names.insert("2".to_string(), "Two".to_string());
    let mut character_prior = cfg(vec![]);
    character_prior.names.insert("1".to_string(), "Mine".to_string());
    let mut merged = cfg(vec![]);
    merged.names.insert("1".to_string(), "Edited".to_string());
    merged.names.insert("3".to_string(), "Three".to_string());

    let (character_out, global_out) = split_room_images(&merged, &character_prior, &global_prior);

    assert_eq!(character_out.names.get("1").map(|s| s.as_str()), Some("Edited"));
    assert_eq!(character_out.names.len(), 1);
    assert_eq!(global_out.names.get("3").map(|s| s.as_str()), Some("Three"));
    assert_eq!(global_out.names.get("1").map(|s| s.as_str()), Some("Old One"));
    assert!(global_out.names.get("2").is_none(), "a label deleted from the merged view goes");
}

#[test]
fn index_maps_every_room_to_its_image() {
    let config = cfg(vec![def("pier", &[7118245, 7118250, 7118251]), def("river", &[7503201])]);
    let index = RoomImageIndex::build(&config);
    assert_eq!(index.len(), 4);
    assert_eq!(index.get(7118250).unwrap().name, "pier");
    assert_eq!(index.get(7503201).unwrap().name, "river");
    assert!(index.get(999).is_none());
}

#[test]
fn index_keeps_first_on_duplicate_room() {
    let config = cfg(vec![def("first", &[7118245]), def("second", &[7118245])]);
    let index = RoomImageIndex::build(&config);
    assert_eq!(index.get(7118245).unwrap().name, "first");
}

#[test]
fn index_skips_unnamed_entries() {
    let config = cfg(vec![def("", &[7118245]), def("  ", &[1])]);
    assert!(RoomImageIndex::build(&config).is_empty());
}

#[test]
fn character_entries_layer_over_global() {
    let mut base = cfg(vec![def("pier", &[1, 2]), def("river", &[3])]);
    base.names.insert("1".into(), "Pier One".into());

    let mut overlay = cfg(vec![def("pier", &[9]), def("forest", &[4])]);
    overlay.names.insert("4".into(), "Deep Forest".into());

    merge_room_images(&mut base, overlay);

    let pier = base.images.iter().find(|d| d.name == "pier").unwrap();
    assert_eq!(pier.rooms, vec![9], "same name replaces wholesale");
    assert!(base.images.iter().any(|d| d.name == "river"), "global kept");
    assert!(base.images.iter().any(|d| d.name == "forest"), "new appended");
    assert_eq!(base.names.get("1").unwrap(), "Pier One");
    assert_eq!(base.names.get("4").unwrap(), "Deep Forest");
}

#[test]
fn merging_keeps_the_presentation_key_of_the_winning_entry() {
    let mut base = cfg(vec![RoomImageDef { name: "pier".into(), rooms: vec![1], presentation: 1 }]);
    let overlay = cfg(vec![RoomImageDef { name: "pier".into(), rooms: vec![2], presentation: 7 }]);
    merge_room_images(&mut base, overlay);
    assert_eq!(base.images.len(), 1);
    assert_eq!(base.images[0].presentation, 7);
}

#[test]
fn saving_without_a_character_writes_everything_globally() {
    let merged = cfg(vec![def("pier", &[1])]);
    let (character_file, global_file) =
        vellum_fe::config::room_images::save_room_images_split(&merged, None, &cfg(vec![]), &cfg(vec![]));
    assert!(character_file.is_none());
    assert_eq!(global_file.images.len(), 1);
}

#[test]
fn the_character_file_is_written_only_when_it_participates() {
    let merged = cfg(vec![def("pier", &[1])]);
    let (character_file, _) = vellum_fe::config::room_images::save_room_images_split(
        &merged,
        Some("Hero"),
        &cfg(vec![]),
        &cfg(vec![]),
    );
    assert!(character_file.is_none(), "no per-character art: no character file");
    let (character_file, global_file) = vellum_fe::config::room_images::save_room_images_split(
        &merged,
        Some("Hero"),
        &cfg(vec![def("pier", &[2])]),
        &cfg(vec![]),
    );
    assert_eq!(character_file.unwrap().images[0].rooms, vec![1]);
    assert!(global_file.images.is_empty());
}

#[test]
fn the_first_named_matching_variant_wins() {
    let d = def("pier", &[1]);
    let names: Vec<String> = vec!["  ".to_string(), "pier_night".to_string(), "pier_storm".to_string()];
    assert_eq!(d.resolve_name(&names, &vec![true, true, true]), "pier_night");
    assert_eq!(d.resolve_name(&names, &vec![true, false, true]), "pier_storm");
    assert_eq!(d.resolve_name(&names, &vec![true, false, false]), "pier");
    assert_eq!(d.resolve_name(&vec![], &vec![]), "pier");
}

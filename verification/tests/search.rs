use divamodarchive::search::{
    bound_modules_filter, chart_levels, costume_sources, fresh_documents, ids_filter, meilisearch_uid,
    pending_bound_modules, range_filter, shown_bind_module, shown_uid, BoundItem, Chart, CosItem, Difficulties,
    DocKey, ModuleCostume, Pv, SongInfo,
};

fn info(music: Option<&str>, manipulator: Option<&str>) -> SongInfo {
    SongInfo {
        music: music.map(String::from),
        lyrics: None,
        arranger: Some(String::from("  ")),
        manipulator: manipulator.map(String::from),
        pv_editor: Some(String::from("ed")),
        guitar_player: None,
    }
}

fn pv(song_info: Option<SongInfo>, song_info_en: Option<SongInfo>) -> Pv {
    Pv {
        uid: String::new(),
        post: None,
        id: 1,
        name: String::new(),
        name_en: String::new(),
        song_info,
        song_info_en,
        levels: [None, None, None, None, None],
    }
}

#[test]
fn document_ids_pack_post_and_content() {
    assert_eq!(meilisearch_uid(1, 2), (1u64 << 32) | 2);
    assert_eq!(meilisearch_uid(0, 0), 0);
    assert_eq!(meilisearch_uid(5, 7) >> 32, 5);
    assert_eq!(meilisearch_uid(5, 7) & 0xffff_ffff, 7);
    // A negative content id fills the high bits.
    assert_eq!(meilisearch_uid(5, -1), u64::MAX);
}

#[test]
fn shown_ids_are_base64_of_native_bytes() {
    let uid = meilisearch_uid(3, 9);
    assert_eq!(shown_uid(uid), base64::Engine::encode(&base64::prelude::BASE64_STANDARD, uid.to_ne_bytes()));
    assert_eq!(shown_uid(0), "AAAAAAAAAAA=");
}

#[test]
fn song_credits() {
    let p = pv(Some(info(Some("composer"), Some(""))), None);
    assert!(p.has_music());
    assert!(!p.has_lyrics());
    assert!(!p.has_arranger());
    // A blank Japanese manipulator entry counts.
    assert!(p.has_manipulator());
    assert!(p.has_editor());
    assert!(!p.has_guitar());
    assert_eq!(p.song_info_count(), 3);
    let q = pv(Some(info(Some(" "), Some("m"))), Some(info(Some("en"), Some("m"))));
    assert!(q.has_music());
    assert!(q.has_manipulator());
    assert_eq!(q.song_info_count(), 3);
    assert_eq!(pv(None, None).song_info_count(), 0);
}

#[test]
fn filters() {
    assert_eq!(range_filter("pv_id", 100, 3), "pv_id=100 OR pv_id=101 OR pv_id=102");
    assert_eq!(range_filter("pv_id", 5, 0), "");
    assert_eq!(ids_filter("post_id", &vec![4, -1]), "post_id=4 OR post_id=-1");
    assert_eq!(ids_filter("id", &vec![]), "");
}

#[test]
fn chart_levels_take_last_matching_edition() {
    let chart = |edition: Option<i32>, level: &str| Chart { edition, level: Some(String::from(level)) };
    let d = Difficulties {
        easy: Some(vec![chart(Some(0), "E1"), chart(Some(0), "E2")]),
        normal: None,
        hard: Some(vec![chart(Some(1), "H1"), chart(None, "H2")]),
        extreme: Some(vec![chart(Some(1), "X1"), chart(Some(0), "X0"), Chart { edition: Some(1), level: None }]),
    };
    let levels = chart_levels(&Some(d));
    assert_eq!(levels, [Some(String::from("E2")), None, None, Some(String::from("X0")), None]);
    assert_eq!(chart_levels(&None), [None, None, None, None, None]);
}

#[test]
fn documents_equal_to_base_game_are_left_out() {
    let key = |id: i32, name: &str| DocKey { id, names: vec![Some(String::from(name))] };
    let docs = vec![key(1, "a"), key(2, "b"), key(3, "c")];
    let base = vec![key(2, "b"), key(3, "changed")];
    assert_eq!(fresh_documents(&docs, &base), vec![0, 2]);
    assert_eq!(fresh_documents(&docs, &vec![]), vec![0, 1, 2]);
}

#[test]
fn costumes_filled_from_base() {
    let item = |id: i32, objs: usize| CosItem { id, objset: vec![String::from("o"); objs] };
    let base = vec![
        ModuleCostume { chara: String::from("MIKU"), items: vec![item(1, 1), item(2, 1)] },
        ModuleCostume { chara: String::from("RIN"), items: vec![item(1, 2)] },
        ModuleCostume { chara: String::from("MIKU"), items: vec![item(1, 3)] },
    ];
    let modules = vec![ModuleCostume { chara: String::from("MIKU"), items: vec![item(1, 0), item(2, 0), item(3, 0), item(1, 4)] }];
    assert_eq!(costume_sources(&modules, &base), vec![vec![Some((2, 0)), Some((0, 1)), None, None]]);
}

#[test]
fn bound_modules() {
    assert_eq!(shown_bind_module(Some(-1)), None);
    assert_eq!(shown_bind_module(Some(4)), Some(4));
    assert_eq!(shown_bind_module(None), None);
    let items = vec![
        BoundItem { bind_module: Some(7), post: Some(3) },
        BoundItem { bind_module: Some(-1), post: None },
        BoundItem { bind_module: Some(5), post: Some(3) },
        BoundItem { bind_module: Some(7), post: None },
        BoundItem { bind_module: Some(7), post: Some(3) },
        BoundItem { bind_module: None, post: Some(1) },
    ];
    let pairs = pending_bound_modules(&items);
    assert_eq!(pairs, vec![(5, Some(3)), (7, None), (7, Some(3))]);
    assert_eq!(
        bound_modules_filter(&pairs),
        "(module_id=5 AND (post_id=3 OR post_id=-1)) OR (module_id=7 AND post_id=-1) OR (module_id=7 AND (post_id=3 OR post_id=-1))"
    );
}

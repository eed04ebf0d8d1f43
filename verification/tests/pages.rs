use divamodarchive::api::get_spec;
use divamodarchive::extract::{archive_kind, carries_game_data, data_files, db_prefixes, rom_dirs, rom_folder, ArchiveKind};
use divamodarchive::listing::{
    batch_status, download_allowance, empty_list_body, listing_status, stored_images, update_dates_status,
};
use divamodarchive::models::{PostType, Status};
use divamodarchive::sitemap::{
    author_dates, optional_date, post_dates, site_map, sitemap_document, AuthorDate, PostDate,
};

#[test]
fn site_map_lists_front_page_posts_and_authors() {
    let posts = vec![PostDate { id: 3, date: String::from("2024-05-01") }];
    let authors = vec![AuthorDate { id: 77, date: None }];
    let m = site_map(&Some(String::from("2024-05-01")), &posts, &authors);
    assert_eq!(m.xmlns, "http://www.sitemaps.org/schemas/sitemap/0.9");
    assert_eq!(m.url.len(), 3);
    assert_eq!(m.url[0].loc.loc, "https://divamodarchive.com/");
    assert_eq!(m.url[0].changefreq.changefreq, "daily");
    assert_eq!(m.url[1].loc.loc, "https://divamodarchive.com/posts/3");
    assert_eq!(m.url[1].priority.priority, "1.0");
    assert_eq!(m.url[1].lastmod.as_ref().map(|l| l.lastmod.clone()), Some(String::from("2024-05-01")));
    assert_eq!(m.url[2].loc.loc, "https://divamodarchive.com/user/77");
    assert_eq!(m.url[2].changefreq.changefreq, "monthly");
    assert_eq!(m.url[2].priority.priority, "0.5");
    assert!(m.url[2].lastmod.is_none());
    assert_eq!(sitemap_document("<urlset/>"), "<?xml version=\"1.0\" encoding=\"UTF-8\"?><urlset/>");
}

#[test]
fn game_data_and_archives() {
    assert!(!carries_game_data(PostType::Plugin));
    assert!(!carries_game_data(PostType::Ui));
    assert!(carries_game_data(PostType::Song));
    assert_eq!(archive_kind("zip"), Some(ArchiveKind::Zip));
    assert_eq!(archive_kind("rar"), Some(ArchiveKind::Rar));
    assert_eq!(archive_kind("7z"), Some(ArchiveKind::SevenZip));
    assert_eq!(archive_kind("tar"), None);
}

#[test]
fn data_file_paths() {
    let folder = rom_folder("/tmp/x/mod", "data", "rom_steam");
    assert_eq!(folder, "/tmp/x/mod/data/rom_steam");
    let d = data_files(&folder, "mod_");
    assert_eq!(d.pv_db, "/tmp/x/mod/data/rom_steam/mod_pv_db.txt");
    assert_eq!(d.module_tbl, "/tmp/x/mod/data/rom_steam/mod_gm_module_tbl.farc");
    assert_eq!(d.customize_item_tbl, "/tmp/x/mod/data/rom_steam/mod_gm_customize_item_tbl.farc");
    assert_eq!(d.chritm_prop, "/tmp/x/mod/data/rom_steam/mod_chritm_prop.farc");
    assert_eq!(d.str_array, "/tmp/x/mod/data/rom_steam/lang2/mod_str_array.toml");
}

#[test]
fn listing_statuses() {
    assert_eq!(listing_status(2, 0), Status::NotFound);
    assert_eq!(listing_status(2, 1), Status::PartialContent);
    assert_eq!(listing_status(2, 2), Status::Success);
    assert_eq!(batch_status(2, 2), Status::Success);
    assert_eq!(batch_status(2, 1), Status::PartialContent);
    assert_eq!(update_dates_status(2, 2), Status::Success);
    assert_eq!(update_dates_status(2, 1), Status::PartialContent);
}

#[test]
fn daily_download_allowance() {
    let limit: i64 = 3 * 1024 * 1024 * 1024;
    assert_eq!(download_allowance(None, 10), Ok(10));
    assert_eq!(download_allowance(Some(5), 10), Ok(15));
    assert_eq!(download_allowance(Some(limit), 10), Err(Status::TooManyRequests));
    assert_eq!(download_allowance(Some(limit - 1), 10), Ok(limit + 9));
}

#[test]
fn empty_list_for_missing_v2_lists() {
    assert!(empty_list_body(Status::NotFound, "/api/v2/posts"));
    assert!(!empty_list_body(Status::NotFound, "/api/v1/posts"));
    assert!(!empty_list_body(Status::Success, "/api/v2/posts"));
}

#[test]
fn images_of_replaced_posts() {
    let old = Some((String::from("old"), vec![String::from("o1")]));
    assert_eq!(
        stored_images(None, Some(vec![String::from("n1")]), old.clone()),
        Ok((String::from("old"), vec![String::from("n1")]))
    );
    assert_eq!(stored_images(Some(String::from("n")), None, None), Err(Status::BadRequest));
    assert_eq!(
        stored_images(Some(String::from("n")), Some(vec![]), None),
        Ok((String::from("n"), vec![]))
    );
}

#[test]
fn interface_description_lists_routes() {
    let spec = get_spec();
    assert!(spec.starts_with("{\"openapi\""));
    assert!(spec.contains("\"/api/v1/posts/{id}/like\""));
    assert!(spec.contains("\"/api/v1/users/login\""));
}

#[test]
fn dates_of_times() {
    let day: i128 = 1_709_596_800 * 1_000_000_000;
    let posts = post_dates(&vec![(4, day), (5, day + 86_400 * 1_000_000_000 - 1)]).unwrap();
    assert_eq!((posts[0].id, posts[0].date.as_str()), (4, "2024-03-05"));
    assert_eq!((posts[1].id, posts[1].date.as_str()), (5, "2024-03-05"));
    let authors = author_dates(&vec![(9, Some(0)), (10, None)]).unwrap();
    assert_eq!(authors[0].date.as_deref(), Some("1970-01-01"));
    assert_eq!(authors[1].date, None);
    assert_eq!(optional_date(None), Some(None));
    assert_eq!(post_dates(&vec![(1, i128::MAX)]).map(|v| v.len()), None);
}

#[test]
fn game_folders_and_prefixes() {
    let roms = rom_dirs();
    assert_eq!(roms.len(), 31);
    assert_eq!((roms[0], roms[30]), ("rom", "rom_switch_tw"));
    let prefixes = db_prefixes();
    assert_eq!((prefixes[0], prefixes[1], prefixes[20]), ("mod_", "", "dlc2B_"));
}

//! Reading an uploaded mod: which posts are searched for game data, which
//! archives can be unpacked, and where in a mod the data files are looked for.

use vstd::prelude::*;
use crate::models::PostType;
use crate::text::{push_str, string_of};

verus! {

/// Plugins and UI mods carry no song, module or customize-item tables.
pub fn carries_game_data(t: PostType) -> (b: bool)
    ensures
        b == !(t == PostType::Plugin || t == PostType::Ui),
{
    !(t == PostType::Plugin || t == PostType::Ui)
}

/// The archive formats the service unpacks.
#[derive(Clone, Copy, Debug, PartialEq, Eq, Structural)]
pub enum ArchiveKind {
    Zip,
    Rar,
    SevenZip,
}

/// The archive format a file extension names, if the service unpacks it.
pub open spec fn archive_of(ext: Seq<char>) -> Option<ArchiveKind> {
    if ext == "zip"@ {
        Some(ArchiveKind::Zip)
    } else if ext == "rar"@ {
        Some(ArchiveKind::Rar)
    } else if ext == "7z"@ {
        Some(ArchiveKind::SevenZip)
    } else {
        None
    }
}

fn same_text(a: &str, b: &str) -> (r: bool)
    ensures
        r == (a@ == b@),
{
    let x = String::from_str(a);
    let y = String::from_str(b);
    x.eq(&y)
}

/// The archive format of a file, by its extension.
pub fn archive_kind(ext: &str) -> (k: Option<ArchiveKind>)
    ensures
        k == archive_of(ext@),
{
    if same_text(ext, "zip") {
        Some(ArchiveKind::Zip)
    } else if same_text(ext, "rar") {
        Some(ArchiveKind::Rar)
    } else if same_text(ext, "7z") {
        Some(ArchiveKind::SevenZip)
    } else {
        None
    }
}

/// The game data folders a mod may hold under each listed directory, in the
/// order they are searched.
pub open spec fn rom_dir_names() -> Seq<&'static str> {
    seq![
        "rom",
        "rom_ps4",
        "rom_ps4_dlc",
        "rom_ps4_fix",
        "rom_ps4_patch",
        "rom_steam",
        "rom_steam_cn",
        "rom_steam_dlc",
        "rom_steam_en",
        "rom_steam_fr",
        "rom_steam_ge",
        "rom_steam_it",
        "rom_steam_kr",
        "rom_steam_region",
        "rom_steam_region_cn",
        "rom_steam_region_cn",
        "rom_steam_region_dlc",
        "rom_steam_region_dlc_kr",
        "rom_steam_region_en",
        "rom_steam_region_fr",
        "rom_steam_region_ge",
        "rom_steam_region_kr",
        "rom_steam_region_sp",
        "rom_steam_region_tw",
        "rom_steam_sp",
        "rom_steam_tw",
        "rom_switch",
        "rom_switch_cn",
        "rom_switch_en",
        "rom_switch_kr",
        "rom_switch_tw",
    ]
}

/// The game data folders a mod may hold, in search order.
pub fn rom_dirs() -> (r: [&'static str; 31])
    ensures
        r@ == rom_dir_names(),
{
    [
        "rom",
        "rom_ps4",
        "rom_ps4_dlc",
        "rom_ps4_fix",
        "rom_ps4_patch",
        "rom_steam",
        "rom_steam_cn",
        "rom_steam_dlc",
        "rom_steam_en",
        "rom_steam_fr",
        "rom_steam_ge",
        "rom_steam_it",
        "rom_steam_kr",
        "rom_steam_region",
        "rom_steam_region_cn",
        "rom_steam_region_cn",
        "rom_steam_region_dlc",
        "rom_steam_region_dlc_kr",
        "rom_steam_region_en",
        "rom_steam_region_fr",
        "rom_steam_region_ge",
        "rom_steam_region_kr",
        "rom_steam_region_sp",
        "rom_steam_region_tw",
        "rom_steam_sp",
        "rom_steam_tw",
        "rom_switch",
        "rom_switch_cn",
        "rom_switch_en",
        "rom_switch_kr",
        "rom_switch_tw",
    ]
}

/// The name prefixes of the data files looked for in a game data folder, in
/// the order they are tried.
pub open spec fn db_prefix_names() -> Seq<&'static str> {
    seq![
        "mod_",
        "",
        "end_",
        "mdata_",
        "patch2_",
        "patch_",
        "dlc13_",
        "dlc12_",
        "dlc14_",
        "dlc9_",
        "dlc8_",
        "dlc11_",
        "dlc10_",
        "dlc4_",
        "dlc3B_",
        "dlc7_",
        "privilege_",
        "dlc2A_",
        "dlc1_",
        "dlc3A_",
        "dlc2B_",
    ]
}

/// The name prefixes of the data files, in the order they are tried.
pub fn db_prefixes() -> (r: [&'static str; 21])
    ensures
        r@ == db_prefix_names(),
{
    [
        "mod_",
        "",
        "end_",
        "mdata_",
        "patch2_",
        "patch_",
        "dlc13_",
        "dlc12_",
        "dlc14_",
        "dlc9_",
        "dlc8_",
        "dlc11_",
        "dlc10_",
        "dlc4_",
        "dlc3B_",
        "dlc7_",
        "privilege_",
        "dlc2A_",
        "dlc1_",
        "dlc3A_",
        "dlc2B_",
    ]
}

/// `{parent}/{listed}/{rom}`: a game data folder of a mod.
pub fn rom_folder(parent: &str, listed: &str, rom: &str) -> (f: String)
    ensures
        f@ == parent@ + "/"@ + listed@ + "/"@ + rom@,
{
    let mut v: Vec<char> = Vec::new();
    push_str(&mut v, parent);
    push_str(&mut v, "/");
    push_str(&mut v, listed);
    push_str(&mut v, "/");
    push_str(&mut v, rom);
    string_of(&v)
}

/// The data files looked for in a game data folder under one name prefix.
pub struct DataFiles {
    pub pv_db: String,
    pub module_tbl: String,
    pub customize_item_tbl: String,
    pub chritm_prop: String,
    pub str_array: String,
}

fn file_in(folder: &str, prefix: &str, name: &str) -> (p: String)
    ensures
        p@ == folder@ + "/"@ + prefix@ + name@,
{
    let mut v: Vec<char> = Vec::new();
    push_str(&mut v, folder);
    push_str(&mut v, "/");
    push_str(&mut v, prefix);
    push_str(&mut v, name);
    string_of(&v)
}

/// The paths of the song table, module and customize-item tables, character
/// item table and string array in `folder`, for name prefix `prefix`.
pub fn data_files(folder: &str, prefix: &str) -> (d: DataFiles)
    ensures
        d.pv_db@ == folder@ + "/"@ + prefix@ + "pv_db.txt"@,
        d.module_tbl@ == folder@ + "/"@ + prefix@ + "gm_module_tbl.farc"@,
        d.customize_item_tbl@ == folder@ + "/"@ + prefix@ + "gm_customize_item_tbl.farc"@,
        d.chritm_prop@ == folder@ + "/"@ + prefix@ + "chritm_prop.farc"@,
        d.str_array@ == folder@ + "/"@ + "lang2/mod_str_array.toml"@,
{
    DataFiles {
        pv_db: file_in(folder, prefix, "pv_db.txt"),
        module_tbl: file_in(folder, prefix, "gm_module_tbl.farc"),
        customize_item_tbl: file_in(folder, prefix, "gm_customize_item_tbl.farc"),
        chritm_prop: file_in(folder, prefix, "chritm_prop.farc"),
        str_array: {
            let mut v: Vec<char> = Vec::new();
            push_str(&mut v, folder);
            push_str(&mut v, "/");
            push_str(&mut v, "lang2/mod_str_array.toml");
            string_of(&v)
        },
    }
}

} // verus!

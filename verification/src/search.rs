//! Documents of the search index: song, module and customize-item entries
//! found in uploaded mods, their ids in the index, which of them differ from
//! the base game, and the filters the service sends to the index.

use vstd::prelude::*;
use crate::text::{blank, chars_of, decimal, decimal_i64, intersperse_join, is_blank, join, push_all, push_str, string_of, views};

verus! {

/// A document's id in the index: the post id in the high 32 bits, the
/// content id in the low 32 bits (`(post_id as u64) << 32 | (id as u64)`).
pub open spec fn document_uid(post_id: i32, id: i32) -> u64 {
    ((post_id as u64) << 32u64) | (id as u64)
}

/// `(post_id as u64) << 32 | (id as u64)`.
pub fn meilisearch_uid(post_id: i32, id: i32) -> (uid: u64)
    ensures
        uid == document_uid(post_id, id),
{
    ((post_id as u64) << 32u64) | (id as u64)
}

/// For non-negative ids, the post id and the content id can be read back
/// from the document id, so no two such pairs share an id.
pub proof fn document_uid_parts(post_id: i32, id: i32)
    requires
        post_id >= 0,
        id >= 0,
    ensures
        document_uid(post_id, id) >> 32u64 == post_id as u64,
        document_uid(post_id, id) & 0xffff_ffffu64 == id as u64,
{
    let p = post_id as u64;
    let i = id as u64;
    assert(p < 0x8000_0000u64 && i < 0x8000_0000u64);
    assert(((p << 32u64) | i) >> 32u64 == p && ((p << 32u64) | i) & 0xffff_ffffu64 == i) by (bit_vector)
        requires
            p < 0x8000_0000u64,
            i < 0x8000_0000u64,
    ;
}

/// Distinct pairs of non-negative post and content ids have distinct document ids.
pub proof fn document_uid_injective(p1: i32, i1: i32, p2: i32, i2: i32)
    requires
        p1 >= 0 && i1 >= 0 && p2 >= 0 && i2 >= 0,
        document_uid(p1, i1) == document_uid(p2, i2),
    ensures
        p1 == p2 && i1 == i2,
{
    document_uid_parts(p1, i1);
    document_uid_parts(p2, i2);
}

/// The bytes of `x` in big-endian order.
pub open spec fn be_bytes(x: u64) -> Seq<u8> {
    vstd::bytes::spec_u64_to_le_bytes(x).reverse()
}

/// `x.to_ne_bytes()`: the bytes of `x` in the machine's order.
///
/// Trusted: std documents `to_ne_bytes` as the memory representation in
/// native byte order, which is either little- or big-endian; which one is a
/// property of the machine, so only the alternative is stated.
#[verifier::external_body]
fn native_bytes(x: u64) -> (b: [u8; 8])
    ensures
        b@ == vstd::bytes::spec_u64_to_le_bytes(x) || b@ == be_bytes(x),
{
    x.to_ne_bytes()
}

/// The character of a six-bit value in the standard Base64 alphabet:
/// `A`-`Z`, `a`-`z`, `0`-`9`, `+`, `/`.
pub open spec fn base64_digit(v: int) -> char {
    if v < 26 {
        (65 + v) as char
    } else if v < 52 {
        (97 + v - 26) as char
    } else if v < 62 {
        (48 + v - 52) as char
    } else if v == 62 {
        '+'
    } else {
        '/'
    }
}

/// The standard Base64 encoding (RFC 4648, section 4: standard alphabet,
/// with `=` padding) of `bytes`: each group of three bytes gives four
/// characters, and a last group of one or two bytes is padded.
pub open spec fn base64_standard(bytes: Seq<u8>) -> Seq<char>
    decreases bytes.len(),
{
    if bytes.len() == 0 {
        Seq::empty()
    } else if bytes.len() == 1 {
        let b0 = bytes[0] as int;
        seq![base64_digit(b0 / 4), base64_digit((b0 % 4) * 16), '=', '=']
    } else if bytes.len() == 2 {
        let (b0, b1) = (bytes[0] as int, bytes[1] as int);
        seq![base64_digit(b0 / 4), base64_digit((b0 % 4) * 16 + b1 / 16), base64_digit((b1 % 16) * 4), '=']
    } else {
        let (b0, b1, b2) = (bytes[0] as int, bytes[1] as int, bytes[2] as int);
        seq![
            base64_digit(b0 / 4),
            base64_digit((b0 % 4) * 16 + b1 / 16),
            base64_digit((b1 % 16) * 4 + b2 / 64),
            base64_digit(b2 % 64),
        ] + base64_standard(bytes.subrange(3, bytes.len() as int))
    }
}

/// Trusted: `base64::prelude::BASE64_STANDARD.encode`, the standard alphabet
/// with padding, as the crate documents it.
#[verifier::external_body]
fn base64_encode(bytes: &[u8; 8]) -> (s: String)
    ensures
        s@ == base64_standard(bytes@),
{
    base64::Engine::encode(&base64::prelude::BASE64_STANDARD, bytes)
}

/// The id a document is shown under: the Base64 of its index id's bytes.
pub fn shown_uid(uid: u64) -> (s: String)
    ensures
        s@ == base64_standard(vstd::bytes::spec_u64_to_le_bytes(uid)) || s@ == base64_standard(be_bytes(uid)),
{
    let bytes = native_bytes(uid);
    base64_encode(&bytes)
}

/// Credits of a song, as a song database lists them.
#[derive(Clone, Debug, PartialEq)]
pub struct SongInfo {
    pub music: Option<String>,
    pub lyrics: Option<String>,
    pub arranger: Option<String>,
    pub manipulator: Option<String>,
    pub pv_editor: Option<String>,
    pub guitar_player: Option<String>,
}

/// A credit is given: present and not blank.
pub open spec fn credited(v: Option<String>) -> bool {
    v is Some && !blank(v.unwrap()@)
}

fn is_credited(v: &Option<String>) -> (r: bool)
    ensures
        r == credited(*v),
{
    match v {
        Some(s) => !is_blank(s.as_str()),
        None => false,
    }
}

/// A song as the service returns it.
#[derive(Clone, Debug, PartialEq)]
pub struct Pv {
    pub uid: String,
    pub post: Option<i32>,
    pub id: i32,
    pub name: String,
    pub name_en: String,
    pub song_info: Option<SongInfo>,
    pub song_info_en: Option<SongInfo>,
    /// The level of each chart: easy, normal, hard, extreme, extra extreme.
    pub levels: [Option<String>; 5],
}

impl Pv {
    /// A music credit is given, in Japanese or in English.
    pub fn has_music(&self) -> (r: bool)
        ensures
            r == self.has_music_spec(),
    {
        if let Some(info) = &self.song_info {
            if is_credited(&info.music) {
                return true;
            }
        }
        if let Some(info) = &self.song_info_en {
            if is_credited(&info.music) {
                return true;
            }
        }
        false
    }

    /// A lyrics credit is given, in Japanese or in English.
    pub fn has_lyrics(&self) -> (r: bool)
        ensures
            r == self.has_lyrics_spec(),
    {
        if let Some(info) = &self.song_info {
            if is_credited(&info.lyrics) {
                return true;
            }
        }
        if let Some(info) = &self.song_info_en {
            if is_credited(&info.lyrics) {
                return true;
            }
        }
        false
    }

    /// An arranger credit is given, in Japanese or in English.
    pub fn has_arranger(&self) -> (r: bool)
        ensures
            r == self.has_arranger_spec(),
    {
        if let Some(info) = &self.song_info {
            if is_credited(&info.arranger) {
                return true;
            }
        }
        if let Some(info) = &self.song_info_en {
            if is_credited(&info.arranger) {
                return true;
            }
        }
        false
    }

    /// A manipulator credit: the Japanese entry counts when it is present
    /// and blank, the English entry when it is present and not blank.
    pub fn has_manipulator(&self) -> (r: bool)
        ensures
            r == self.has_manipulator_spec(),
    {
        if let Some(info) = &self.song_info {
            if let Some(manipulator) = &info.manipulator {
                if is_blank(manipulator.as_str()) {
                    return true;
                }
            }
        }
        if let Some(info) = &self.song_info_en {
            if is_credited(&info.manipulator) {
                return true;
            }
        }
        false
    }

    /// A PV editor credit is given, in Japanese or in English.
    pub fn has_editor(&self) -> (r: bool)
        ensures
            r == self.has_editor_spec(),
    {
        if let Some(info) = &self.song_info {
            if is_credited(&info.pv_editor) {
                return true;
            }
        }
        if let Some(info) = &self.song_info_en {
            if is_credited(&info.pv_editor) {
                return true;
            }
        }
        false
    }

    /// A guitar credit is given, in Japanese or in English.
    pub fn has_guitar(&self) -> (r: bool)
        ensures
            r == self.has_guitar_spec(),
    {
        if let Some(info) = &self.song_info {
            if is_credited(&info.guitar_player) {
                return true;
            }
        }
        if let Some(info) = &self.song_info_en {
            if is_credited(&info.guitar_player) {
                return true;
            }
        }
        false
    }

    /// How many of the six credits are given.
    pub fn song_info_count(&self) -> (n: isize)
        ensures
            n == (if self.has_music_spec() { 1int } else { 0 }) + (if self.has_lyrics_spec() { 1int } else { 0 })
                + (if self.has_arranger_spec() { 1int } else { 0 }) + (if self.has_manipulator_spec() { 1int } else { 0 })
                + (if self.has_editor_spec() { 1int } else { 0 }) + (if self.has_guitar_spec() { 1int } else { 0 }),
            0 <= n <= 6,
    {
        let mut n: isize = 0;
        if self.has_music() {
            n = n + 1;
        }
        if self.has_lyrics() {
            n = n + 1;
        }
        if self.has_arranger() {
            n = n + 1;
        }
        if self.has_manipulator() {
            n = n + 1;
        }
        if self.has_editor() {
            n = n + 1;
        }
        if self.has_guitar() {
            n = n + 1;
        }
        n
    }

    /// A music credit is given in either language.
    pub open spec fn has_music_spec(&self) -> bool {
        (self.song_info is Some && credited(self.song_info.unwrap().music)) || (self.song_info_en is Some
            && credited(self.song_info_en.unwrap().music))
    }

    /// A lyrics credit is given in either language.
    pub open spec fn has_lyrics_spec(&self) -> bool {
        (self.song_info is Some && credited(self.song_info.unwrap().lyrics)) || (self.song_info_en is Some
            && credited(self.song_info_en.unwrap().lyrics))
    }

    /// An arranger credit is given in either language.
    pub open spec fn has_arranger_spec(&self) -> bool {
        (self.song_info is Some && credited(self.song_info.unwrap().arranger)) || (self.song_info_en is Some
            && credited(self.song_info_en.unwrap().arranger))
    }

    /// The Japanese manipulator entry is present and blank, or the English one is credited.
    pub open spec fn has_manipulator_spec(&self) -> bool {
        (self.song_info is Some && self.song_info.unwrap().manipulator is Some && blank(
            self.song_info.unwrap().manipulator.unwrap()@,
        )) || (self.song_info_en is Some && credited(self.song_info_en.unwrap().manipulator))
    }

    /// A PV editor credit is given in either language.
    pub open spec fn has_editor_spec(&self) -> bool {
        (self.song_info is Some && credited(self.song_info.unwrap().pv_editor)) || (self.song_info_en is Some
            && credited(self.song_info_en.unwrap().pv_editor))
    }

    /// A guitar credit is given in either language.
    pub open spec fn has_guitar_spec(&self) -> bool {
        (self.song_info is Some && credited(self.song_info.unwrap().guitar_player)) || (self.song_info_en is Some
            && credited(self.song_info_en.unwrap().guitar_player))
    }
}


/// `field=id`.
pub open spec fn term(field: Seq<char>, id: int) -> Seq<char> {
    field + "="@ + decimal(id)
}

/// `field=id` for each id, joined by ` OR `.
pub open spec fn any_of(field: Seq<char>, ids: Seq<int>) -> Seq<char> {
    join(ids.map_values(|id: int| term(field, id)), " OR "@)
}

fn term_string(field: &str, id: i64) -> (s: String)
    ensures
        s@ == term(field@, id as int),
{
    let mut v: Vec<char> = chars_of(field);
    push_str(&mut v, "=");
    let d = decimal_i64(id);
    push_all(&mut v, &d);
    string_of(&v)
}

/// The filter matching the documents whose `field` is one of `ids`:
/// `field=a OR field=b OR ...`.
pub fn ids_filter(field: &str, ids: &Vec<i32>) -> (s: String)
    ensures
        s@ == any_of(field@, ids@.map_values(|id: i32| id as int)),
{
    let mut terms: Vec<String> = Vec::new();
    let mut i: usize = 0;
    while i < ids.len()
        invariant
            i <= ids.len(),
            terms@.len() == i,
            forall|k: int| 0 <= k < i ==> (#[trigger] terms@[k])@ == term(field@, ids@[k] as int),
        decreases ids.len() - i,
    {
        let t = term_string(field, ids[i] as i64);
        terms.push(t);
        i = i + 1;
    }
    assert(views(terms@) =~= ids@.map_values(|id: i32| id as int).map_values(|id: int| term(field@, id)));
    let sep = String::from_str(" OR ");
    intersperse_join(terms, &sep)
}

/// The ids `start .. start + length`.
pub open spec fn id_range(start: u32, length: u32) -> Seq<int> {
    Seq::new(length as nat, |k: int| start + k)
}

/// The filter matching the documents whose `field` lies in `start .. start + length`.
pub fn range_filter(field: &str, start: u32, length: u32) -> (s: String)
    requires
        start + length <= u32::MAX,
    ensures
        s@ == any_of(field@, id_range(start, length)),
{
    let mut terms: Vec<String> = Vec::new();
    let end = start + length;
    let mut id = start;
    while id < end
        invariant
            start <= id <= end,
            end == start + length,
            terms@.len() == id - start,
            forall|k: int| 0 <= k < terms@.len() ==> (#[trigger] terms@[k])@ == term(field@, start + k),
        decreases end - id,
    {
        let t = term_string(field, id as i64);
        terms.push(t);
        id = id + 1;
    }
    assert(views(terms@) =~= id_range(start, length).map_values(|i: int| term(field@, i)));
    let sep = String::from_str(" OR ");
    intersperse_join(terms, &sep)
}

/// A chart of a song, as the song database lists it.
#[derive(Clone, Debug, PartialEq)]
pub struct Chart {
    pub edition: Option<i32>,
    pub level: Option<String>,
}

/// The charts of a song, by difficulty.
#[derive(Clone, Debug, PartialEq)]
pub struct Difficulties {
    pub easy: Option<Vec<Chart>>,
    pub normal: Option<Vec<Chart>>,
    pub hard: Option<Vec<Chart>>,
    pub extreme: Option<Vec<Chart>>,
}

/// The contents of an optional string.
pub open spec fn opt_view(o: Option<String>) -> Option<Seq<char>> {
    match o {
        Some(s) => Some(s@),
        None => None,
    }
}

/// The level of the last chart of edition `edition`; `None` when no chart has it.
pub open spec fn edition_level(charts: Option<Vec<Chart>>, edition: i32) -> Option<Seq<char>> {
    match charts {
        None => None,
        Some(v) => last_edition_level(v@, edition, v@.len() as int),
    }
}

pub open spec fn last_edition_level(charts: Seq<Chart>, edition: i32, n: int) -> Option<Seq<char>>
    decreases n,
{
    if n <= 0 {
        None
    } else if charts[n - 1].edition == Some(edition) {
        opt_view(charts[n - 1].level)
    } else {
        last_edition_level(charts, edition, n - 1)
    }
}

/// The shown level of each chart slot: easy, normal, hard and extreme from
/// edition 0, extra extreme from the extreme charts of edition 1.
pub open spec fn chart_slots(d: Option<Difficulties>) -> Seq<Option<Seq<char>>> {
    match d {
        None => seq![None, None, None, None, None],
        Some(d) => seq![
            edition_level(d.easy, 0),
            edition_level(d.normal, 0),
            edition_level(d.hard, 0),
            edition_level(d.extreme, 0),
            edition_level(d.extreme, 1),
        ],
    }
}

/// `shown` is the level of the last of `charts` of edition `edition`, and
/// nothing when none has it (or there are no charts).
pub open spec fn shows_last(charts: Option<Vec<Chart>>, edition: i32, shown: Option<Seq<char>>) -> bool {
    match charts {
        None => shown is None,
        Some(v) => {
            &&& forall|k: int|
                0 <= k < v@.len() && (#[trigger] v@[k]).edition == Some(edition) && (forall|j: int|
                    k < j < v@.len() ==> (#[trigger] v@[j]).edition != Some(edition)) ==> shown == opt_view(v@[k].level)
            &&& (forall|k: int| 0 <= k < v@.len() ==> (#[trigger] v@[k]).edition != Some(edition)) ==> shown is None
        },
    }
}

proof fn last_edition_level_is_last(charts: Seq<Chart>, edition: i32, n: int)
    requires
        0 <= n <= charts.len(),
    ensures
        forall|k: int|
            0 <= k < n && (#[trigger] charts[k]).edition == Some(edition) && (forall|j: int|
                k < j < n ==> (#[trigger] charts[j]).edition != Some(edition)) ==> last_edition_level(charts, edition, n)
                == opt_view(charts[k].level),
        (forall|k: int| 0 <= k < n ==> (#[trigger] charts[k]).edition != Some(edition)) ==> last_edition_level(
            charts,
            edition,
            n,
        ) is None,
    decreases n,
{
    if n > 0 {
        last_edition_level_is_last(charts, edition, n - 1);
        assert forall|k: int|
            0 <= k < n && (#[trigger] charts[k]).edition == Some(edition) && (forall|j: int|
                k < j < n ==> (#[trigger] charts[j]).edition != Some(edition)) implies last_edition_level(charts, edition, n)
                == opt_view(charts[k].level) by {
            if k < n - 1 {
                assert(charts[n - 1].edition != Some(edition));
            }
        }
        if forall|k: int| 0 <= k < n ==> (#[trigger] charts[k]).edition != Some(edition) {
            assert(charts[n - 1].edition != Some(edition));
        }
    }
}

proof fn edition_level_shows_last(charts: Option<Vec<Chart>>, edition: i32)
    ensures
        shows_last(charts, edition, edition_level(charts, edition)),
{
    if let Some(v) = charts {
        last_edition_level_is_last(v@, edition, v@.len() as int);
    }
}

/// The levels a song shows: easy, normal, hard and extreme are each the level
/// of the last chart of that difficulty of edition 0, and extra extreme that
/// of the last extreme chart of edition 1; a slot with no such chart is empty.
pub proof fn chart_slots_show_last_charts(d: Option<Difficulties>)
    ensures
        chart_slots(d).len() == 5,
        d is None ==> forall|i: int| 0 <= i < 5 ==> (#[trigger] chart_slots(d)[i]) is None,
        d matches Some(dd) ==> {
            &&& shows_last(dd.easy, 0, chart_slots(d)[0])
            &&& shows_last(dd.normal, 0, chart_slots(d)[1])
            &&& shows_last(dd.hard, 0, chart_slots(d)[2])
            &&& shows_last(dd.extreme, 0, chart_slots(d)[3])
            &&& shows_last(dd.extreme, 1, chart_slots(d)[4])
        },
{
    if let Some(dd) = d {
        edition_level_shows_last(dd.easy, 0);
        edition_level_shows_last(dd.normal, 0);
        edition_level_shows_last(dd.hard, 0);
        edition_level_shows_last(dd.extreme, 0);
        edition_level_shows_last(dd.extreme, 1);
    }
}

fn copy_opt_string(o: &Option<String>) -> (r: Option<String>)
    ensures
        opt_view(r) == opt_view(*o),
{
    match o {
        Some(s) => Some(s.clone()),
        None => None,
    }
}

fn has_edition(c: &Chart, edition: i32) -> (r: bool)
    ensures
        r == (c.edition == Some(edition)),
{
    match c.edition {
        Some(e) => e == edition,
        None => false,
    }
}

fn pick_level(charts: &Option<Vec<Chart>>, edition: i32) -> (r: Option<String>)
    ensures
        opt_view(r) == edition_level(*charts, edition),
{
    match charts {
        None => None,
        Some(v) => {
            let mut n: usize = v.len();
            while n > 0 && !has_edition(&v[n - 1], edition)
                invariant
                    n <= v.len(),
                    last_edition_level(v@, edition, v@.len() as int) == last_edition_level(v@, edition, n as int),
                decreases n,
            {
                n = n - 1;
            }
            if n == 0 {
                None
            } else {
                copy_opt_string(&v[n - 1].level)
            }
        },
    }
}

/// The five chart levels shown for a song.
pub fn chart_levels(d: &Option<Difficulties>) -> (r: [Option<String>; 5])
    ensures
        r@.map_values(|o: Option<String>| opt_view(o)) == chart_slots(*d),
{
    match d {
        None => {
            let r: [Option<String>; 5] = [None, None, None, None, None];
            assert(r@.map_values(|o: Option<String>| opt_view(o)) =~= chart_slots(*d));
            r
        },
        Some(d) => {
            let r: [Option<String>; 5] = [
                pick_level(&d.easy, 0),
                pick_level(&d.normal, 0),
                pick_level(&d.hard, 0),
                pick_level(&d.extreme, 0),
                pick_level(&d.extreme, 1),
            ];
            assert(r@.map_values(|o: Option<String>| opt_view(o)) =~= chart_slots(Some(*d)));
            r
        },
    }
}


/// What tells two index documents apart when comparing a mod's content with
/// the base game's: the content id and its names (a song's Japanese and
/// English names; a module's or customize item's Japanese name).
#[derive(Clone, Debug, PartialEq)]
pub struct DocKey {
    pub id: i32,
    pub names: Vec<Option<String>>,
}

/// Two keys agree: same id, same names.
pub open spec fn same_key(a: DocKey, b: DocKey) -> bool {
    a.id == b.id && a.names@.map_values(|o: Option<String>| opt_view(o)) == b.names@.map_values(
        |o: Option<String>| opt_view(o),
    )
}

/// Some base document agrees with `d`.
pub open spec fn in_base(d: DocKey, base: Seq<DocKey>) -> bool {
    exists|b: int| 0 <= b < base.len() && same_key(d, #[trigger] base[b])
}

/// The positions, ascending, of the first `n` documents that agree with no base document.
pub open spec fn fresh_positions(docs: Seq<DocKey>, base: Seq<DocKey>, n: int) -> Seq<usize>
    decreases n,
{
    if n <= 0 {
        Seq::empty()
    } else if in_base(docs[n - 1], base) {
        fresh_positions(docs, base, n - 1)
    } else {
        fresh_positions(docs, base, n - 1).push((n - 1) as usize)
    }
}

fn same_names(a: &Vec<Option<String>>, b: &Vec<Option<String>>) -> (r: bool)
    ensures
        r == (a@.map_values(|o: Option<String>| opt_view(o)) == b@.map_values(|o: Option<String>| opt_view(o))),
{
    if a.len() != b.len() {
        assert(a@.map_values(|o: Option<String>| opt_view(o)).len() != b@.map_values(|o: Option<String>| opt_view(o)).len());
        return false;
    }
    let mut i: usize = 0;
    while i < a.len()
        invariant
            a.len() == b.len(),
            i <= a.len(),
            forall|k: int| 0 <= k < i ==> opt_view(#[trigger] a@[k]) == opt_view(b@[k]),
        decreases a.len() - i,
    {
        if !crate::models::same_option_string(&a[i], &b[i]) {
            assert(a@.map_values(|o: Option<String>| opt_view(o))[i as int] != b@.map_values(|o: Option<String>| opt_view(o))[i as int]);
            return false;
        }
        i = i + 1;
    }
    assert(a@.map_values(|o: Option<String>| opt_view(o)) =~= b@.map_values(|o: Option<String>| opt_view(o)));
    true
}

fn in_base_exec(d: &DocKey, base: &Vec<DocKey>) -> (r: bool)
    ensures
        r == in_base(*d, base@),
{
    let mut b: usize = 0;
    while b < base.len()
        invariant
            b <= base.len(),
            forall|k: int| 0 <= k < b ==> !same_key(*d, #[trigger] base@[k]),
        decreases base.len() - b,
    {
        if d.id == base[b].id && same_names(&d.names, &base[b].names) {
            assert(same_key(*d, base@[b as int]));
            return true;
        }
        b = b + 1;
    }
    false
}

/// The positions, ascending, of the documents of a mod that differ from
/// every base-game document; only those are added to the index.
pub fn fresh_documents(docs: &Vec<DocKey>, base: &Vec<DocKey>) -> (r: Vec<usize>)
    ensures
        r@ == fresh_positions(docs@, base@, docs@.len() as int),
{
    let mut r: Vec<usize> = Vec::new();
    let mut i: usize = 0;
    while i < docs.len()
        invariant
            i <= docs.len(),
            r@ == fresh_positions(docs@, base@, i as int),
        decreases docs.len() - i,
    {
        if !in_base_exec(&docs[i], base) {
            r.push(i);
        }
        i = i + 1;
    }
    r
}

proof fn fresh_positions_members(docs: Seq<DocKey>, base: Seq<DocKey>, n: int)
    requires
        0 <= n <= docs.len(),
        docs.len() <= usize::MAX,
    ensures
        forall|p: int|
            #![trigger docs[p]]
            0 <= p < n ==> (fresh_positions(docs, base, n).contains(p as usize) <==> !in_base(docs[p], base)),
        forall|q: usize| #[trigger] fresh_positions(docs, base, n).contains(q) ==> q < n,
    decreases n,
{
    if n > 0 {
        fresh_positions_members(docs, base, n - 1);
        let prev = fresh_positions(docs, base, n - 1);
        let cur = fresh_positions(docs, base, n);
        assert forall|p: int| 0 <= p < n implies (cur.contains(p as usize) <==> !in_base(docs[p], base)) by {
            if p < n - 1 {
                if !in_base(docs[n - 1], base) {
                    assert(cur == prev.push((n - 1) as usize));
                    if cur.contains(p as usize) {
                        let j = choose|j: int| 0 <= j < cur.len() && cur[j] == p as usize;
                        if j < prev.len() {
                            assert(prev[j] == p as usize);
                        }
                    }
                    if prev.contains(p as usize) {
                        let j = choose|j: int| 0 <= j < prev.len() && prev[j] == p as usize;
                        assert(cur[j] == p as usize);
                    }
                }
            } else {
                if !in_base(docs[n - 1], base) {
                    assert(cur[cur.len() - 1] == (n - 1) as usize);
                } else {
                    assert(cur == prev);
                    if prev.contains(p as usize) {
                        assert((p as usize) < n - 1);
                    }
                }
            }
        }
        assert forall|q: usize| #[trigger] cur.contains(q) implies q < n by {
            if !in_base(docs[n - 1], base) {
                let j = choose|j: int| 0 <= j < cur.len() && cur[j] == q;
                if j < prev.len() {
                    assert(prev[j] == q);
                    assert(prev.contains(q));
                }
            } else {
                assert(prev.contains(q));
            }
        }
    }
}

/// No base document has content id `id`.
pub open spec fn id_unknown_to(base: Seq<DocKey>, id: i32) -> bool {
    forall|b: int| 0 <= b < base.len() ==> (#[trigger] base[b]).id != id
}

/// What is left out of the index: a document at a content id that no base
/// document has is always kept, and one with the content id and the names of
/// a base document never is; every position kept is a document's.
pub proof fn fresh_documents_keep_new_ids(docs: Seq<DocKey>, base: Seq<DocKey>)
    requires
        docs.len() <= usize::MAX,
    ensures
        forall|q: usize| #[trigger] fresh_positions(docs, base, docs.len() as int).contains(q) ==> q < docs.len(),
        forall|i: int|
            0 <= i < docs.len() && #[trigger] id_unknown_to(base, docs[i].id)
                ==> fresh_positions(docs, base, docs.len() as int).contains(i as usize),
        forall|i: int, b: int|
            0 <= i < docs.len() && 0 <= b < base.len() && (#[trigger] base[b]).id == (#[trigger] docs[i]).id
                && base[b].names@.len() == docs[i].names@.len() && (forall|j: int|
                0 <= j < docs[i].names@.len() ==> opt_view(#[trigger] docs[i].names@[j]) == opt_view(base[b].names@[j]))
                ==> !fresh_positions(docs, base, docs.len() as int).contains(i as usize),
{
    fresh_positions_members(docs, base, docs.len() as int);
    assert forall|i: int|
        0 <= i < docs.len() && #[trigger] id_unknown_to(base, docs[i].id)
            implies fresh_positions(docs, base, docs.len() as int).contains(i as usize) by {
        if in_base(docs[i], base) {
            let b = choose|b: int| 0 <= b < base.len() && same_key(docs[i], #[trigger] base[b]);
            assert(base[b].id != docs[i].id);
        }
        assert(!in_base(docs[i], base));
    }
    assert forall|i: int, b: int|
        0 <= i < docs.len() && 0 <= b < base.len() && (#[trigger] base[b]).id == (#[trigger] docs[i]).id
            && base[b].names@.len() == docs[i].names@.len() && (forall|j: int|
            0 <= j < docs[i].names@.len() ==> opt_view(#[trigger] docs[i].names@[j]) == opt_view(base[b].names@[j]))
            implies !fresh_positions(docs, base, docs.len() as int).contains(i as usize) by {
        assert(docs[i].names@.map_values(|o: Option<String>| opt_view(o)) =~= base[b].names@.map_values(
            |o: Option<String>| opt_view(o),
        ));
        assert(same_key(docs[i], base[b]));
    }
}

/// A costume entry of a module.
#[derive(Clone, Debug, PartialEq)]
pub struct CosItem {
    pub id: i32,
    pub objset: Vec<String>,
}

/// The character a module is for, and its costume entries.
#[derive(Clone, Debug, PartialEq)]
pub struct ModuleCostume {
    pub chara: String,
    pub items: Vec<CosItem>,
}

/// The last base entry `(module, item)`, scanning base modules and their
/// items in order, of the same character with costume id `id`, among the
/// first `m` base modules.
pub open spec fn last_base_item(base: Seq<ModuleCostume>, chara: Seq<char>, id: i32, m: int) -> Option<(usize, usize)>
    decreases m,
{
    if m <= 0 {
        None
    } else {
        match last_item_in(base[m - 1].items@, id, base[m - 1].items@.len() as int) {
            Some(i) => if base[m - 1].chara@ == chara {
                Some(((m - 1) as usize, i))
            } else {
                last_base_item(base, chara, id, m - 1)
            },
            None => last_base_item(base, chara, id, m - 1),
        }
    }
}

/// The last of the first `n` items with costume id `id`.
pub open spec fn last_item_in(items: Seq<CosItem>, id: i32, n: int) -> Option<usize>
    decreases n,
{
    if n <= 0 {
        None
    } else if items[n - 1].id == id {
        Some((n - 1) as usize)
    } else {
        last_item_in(items, id, n - 1)
    }
}

/// Where a costume entry of a mod's module is filled from: entries with an
/// empty object set take the last base entry of the same character and id.
pub open spec fn costume_source(module: ModuleCostume, item: CosItem, base: Seq<ModuleCostume>) -> Option<(usize, usize)> {
    if item.objset@.len() == 0 {
        last_base_item(base, module.chara@, item.id, base.len() as int)
    } else {
        None
    }
}

fn last_item_exec(items: &Vec<CosItem>, id: i32) -> (r: Option<usize>)
    ensures
        r == last_item_in(items@, id, items@.len() as int),
{
    let mut n = items.len();
    while n > 0 && items[n - 1].id != id
        invariant
            n <= items.len(),
            last_item_in(items@, id, items@.len() as int) == last_item_in(items@, id, n as int),
        decreases n,
    {
        n = n - 1;
    }
    if n == 0 {
        None
    } else {
        Some(n - 1)
    }
}

/// For each costume entry of each module of a mod, the base entry it is
/// filled from, if any.
pub fn costume_sources(modules: &Vec<ModuleCostume>, base: &Vec<ModuleCostume>) -> (r: Vec<Vec<Option<(usize, usize)>>>)
    ensures
        r@.len() == modules@.len(),
        forall|k: int| 0 <= k < r@.len() ==> (#[trigger] r@[k])@.len() == modules@[k].items@.len(),
        forall|k: int, j: int|
            0 <= k < r@.len() && 0 <= j < modules@[k].items@.len() ==> (#[trigger] r@[k]@[j]) == costume_source(
                modules@[k],
                modules@[k].items@[j],
                base@,
            ),
{
    let mut r: Vec<Vec<Option<(usize, usize)>>> = Vec::new();
    let mut k: usize = 0;
    while k < modules.len()
        invariant
            k <= modules.len(),
            r@.len() == k,
            forall|a: int| 0 <= a < k ==> (#[trigger] r@[a])@.len() == modules@[a].items@.len(),
            forall|a: int, j: int|
                0 <= a < k && 0 <= j < modules@[a].items@.len() ==> (#[trigger] r@[a]@[j]) == costume_source(
                    modules@[a],
                    modules@[a].items@[j],
                    base@,
                ),
        decreases modules.len() - k,
    {
        let module = &modules[k];
        let mut row: Vec<Option<(usize, usize)>> = Vec::new();
        let mut j: usize = 0;
        while j < module.items.len()
            invariant
                j <= module.items.len(),
                row@.len() == j,
                forall|t: int| 0 <= t < j ==> #[trigger] row@[t] == costume_source(*module, module.items@[t], base@),
            decreases module.items.len() - j,
        {
            let item = &module.items[j];
            if item.objset.len() == 0 {
                let mut m = base.len();
                while m > 0 && !(base[m - 1].chara.eq(&module.chara) && last_item_exec(&base[m - 1].items, item.id).is_some())
                    invariant
                        m <= base.len(),
                        last_base_item(base@, module.chara@, item.id, base@.len() as int) == last_base_item(
                            base@,
                            module.chara@,
                            item.id,
                            m as int,
                        ),
                    decreases m,
                {
                    m = m - 1;
                }
                if m == 0 {
                    row.push(None);
                } else {
                    let found = last_item_exec(&base[m - 1].items, item.id);
                    match found {
                        Some(i) => row.push(Some((m - 1, i))),
                        None => row.push(None),
                    }
                }
            } else {
                row.push(None);
            }
            j = j + 1;
        }
        r.push(row);
        k = k + 1;
    }
    r
}


/// The module a customize item is shown as bound to: the stored -1 means none.
pub fn shown_bind_module(bind_module: Option<i32>) -> (r: Option<i32>)
    ensures
        r == (if bind_module == Some(-1i32) { None } else { bind_module }),
{
    match bind_module {
        Some(m) => if m == -1 {
            None
        } else {
            Some(m)
        },
        None => None,
    }
}

/// `(module, post)` pairs in tuple order: by module, then by post, with no post first.
pub open spec fn pair_lt(a: (i32, Option<i32>), b: (i32, Option<i32>)) -> bool {
    a.0 < b.0 || (a.0 == b.0 && match (a.1, b.1) {
        (None, Some(_)) => true,
        (Some(x), Some(y)) => x < y,
        _ => false,
    })
}

pub open spec fn pairs_ascending(s: Seq<(i32, Option<i32>)>) -> bool {
    forall|i: int, j: int| 0 <= i < j < s.len() ==> pair_lt(s[i], s[j])
}

proof fn pair_lt_trans(a: (i32, Option<i32>), b: (i32, Option<i32>), c: (i32, Option<i32>))
    requires
        pair_lt(a, b),
        pair_lt(b, c),
    ensures
        pair_lt(a, c),
{
}

proof fn pair_lt_total(a: (i32, Option<i32>), b: (i32, Option<i32>))
    ensures
        pair_lt(a, b) || pair_lt(b, a) || a == b,
        !(pair_lt(a, b) && pair_lt(b, a)),
        !pair_lt(a, a),
{
}

fn pair_less(a: (i32, Option<i32>), b: (i32, Option<i32>)) -> (r: bool)
    ensures
        r == pair_lt(a, b),
{
    if a.0 != b.0 {
        return a.0 < b.0;
    }
    match (a.1, b.1) {
        (None, Some(_)) => true,
        (Some(x), Some(y)) => x < y,
        _ => false,
    }
}

fn insert_pair(v: &mut Vec<(i32, Option<i32>)>, x: (i32, Option<i32>))
    requires
        pairs_ascending(old(v)@),
    ensures
        pairs_ascending(final(v)@),
        final(v)@.to_set() == old(v)@.to_set().insert(x),
{
    let mut p: usize = 0;
    while p < v.len() && pair_less(v[p], x)
        invariant
            p <= v.len(),
            forall|j: int| 0 <= j < p ==> pair_lt(v@[j], x),
        decreases v.len() - p,
    {
        p = p + 1;
    }
    if p < v.len() && !pair_less(x, v[p]) {
        proof {
            pair_lt_total(v@[p as int], x);
        }
        assert(v@.to_set().insert(x) =~= v@.to_set()) by {
            assert(v@[p as int] == x);
            assert(v@.contains(x));
        }
        return;
    }
    let ghost old_v = v@;
    proof {
        if p < old_v.len() {
            pair_lt_total(old_v[p as int], x);
        }
    }
    v.insert(p, x);
    proof {
        assert forall|i: int, j: int| 0 <= i < j < v@.len() implies pair_lt(v@[i], v@[j]) by {
            if j < p {
            } else if i > p {
                assert(v@[i] == old_v[i - 1] && v@[j] == old_v[j - 1]);
            } else if i == p {
                assert(v@[j] == old_v[j - 1]);
                if j - 1 > p {
                    pair_lt_trans(x, old_v[p as int], old_v[j - 1]);
                }
            } else if j == p {
            } else {
                assert(v@[j] == old_v[j - 1]);
                if j - 1 > p {
                    pair_lt_trans(x, old_v[p as int], old_v[j - 1]);
                }
                pair_lt_trans(v@[i], x, v@[j]);
            }
        }
        assert forall|y: (i32, Option<i32>)| #[trigger] v@.to_set().contains(y) <==> old_v.to_set().insert(x).contains(y) by {
            if v@.contains(y) {
                let k = choose|k: int| 0 <= k < v@.len() && v@[k] == y;
                if k < p {
                    assert(old_v[k] == y);
                } else if k > p {
                    assert(old_v[k - 1] == y);
                }
            }
            if old_v.contains(y) {
                let k = choose|k: int| 0 <= k < old_v.len() && old_v[k] == y;
                if k < p {
                    assert(v@[k] == y);
                } else {
                    assert(v@[k + 1] == y);
                }
            }
            if y == x {
                assert(v@[p as int] == x);
            }
        }
        assert(v@.to_set() =~= old_v.to_set().insert(x));
    }
}

/// A customize item found by a search: the module it is bound to, as
/// stored, and the post it came from.
#[derive(Clone, Copy, Debug, PartialEq, Eq, Structural)]
pub struct BoundItem {
    pub bind_module: Option<i32>,
    pub post: Option<i32>,
}

/// The `(module, post)` pairs to look up for the bound modules of `items`:
/// items bound to a module other than -1.
pub open spec fn wanted_pairs(items: Seq<BoundItem>) -> Set<(i32, Option<i32>)> {
    Set::new(|p: (i32, Option<i32>)| p.0 != -1 && exists|k: int| 0 <= k < items.len() && (#[trigger] items[k]).bind_module == Some(p.0) && items[k].post == p.1)
}

/// The pairs of modules to fetch for the bound modules of `items`, in tuple
/// order without repeats (as a `BTreeSet` holds them).
pub fn pending_bound_modules(items: &Vec<BoundItem>) -> (r: Vec<(i32, Option<i32>)>)
    ensures
        pairs_ascending(r@),
        r@.to_set() == wanted_pairs(items@),
{
    let mut r: Vec<(i32, Option<i32>)> = Vec::new();
    let mut i: usize = 0;
    assert(r@.to_set() =~= wanted_pairs(items@.subrange(0, 0)));
    while i < items.len()
        invariant
            i <= items.len(),
            pairs_ascending(r@),
            r@.to_set() == wanted_pairs(items@.subrange(0, i as int)),
        decreases items.len() - i,
    {
        let item = items[i];
        let ghost before = r@.to_set();
        proof {
            assert forall|p: (i32, Option<i32>)| #[trigger] wanted_pairs(items@.subrange(0, i + 1)).contains(p) <==> (wanted_pairs(items@.subrange(0, i as int)).contains(p) || (p.0 != -1 && item.bind_module == Some(p.0) && item.post == p.1)) by {
                let a = items@.subrange(0, i + 1);
                let b = items@.subrange(0, i as int);
                if wanted_pairs(a).contains(p) {
                    let k = choose|k: int| 0 <= k < a.len() && (#[trigger] a[k]).bind_module == Some(p.0) && a[k].post == p.1;
                    if k < i {
                        assert(b[k] == a[k]);
                    }
                }
                if wanted_pairs(b).contains(p) {
                    let k = choose|k: int| 0 <= k < b.len() && (#[trigger] b[k]).bind_module == Some(p.0) && b[k].post == p.1;
                    assert(a[k] == b[k]);
                }
                if p.0 != -1 && item.bind_module == Some(p.0) && item.post == p.1 {
                    assert(a[i as int] == item);
                }
            }
        }
        match item.bind_module {
            Some(m) => {
                if m != -1 {
                    insert_pair(&mut r, (m, item.post));
                    assert(r@.to_set() =~= wanted_pairs(items@.subrange(0, i + 1)));
                } else {
                    assert(r@.to_set() =~= wanted_pairs(items@.subrange(0, i + 1)));
                }
            },
            None => {
                assert(r@.to_set() =~= wanted_pairs(items@.subrange(0, i + 1)));
            },
        }
        i = i + 1;
    }
    assert(items@.subrange(0, items.len() as int) =~= items@);
    r
}

/// The filter term for a bound module: the module from the item's post or
/// from the base game, or from the base game alone when the item has no post.
pub open spec fn bound_term(p: (i32, Option<i32>)) -> Seq<char> {
    match p.1 {
        Some(post) => "(module_id="@ + decimal(p.0 as int) + " AND (post_id="@ + decimal(post as int)
            + " OR post_id=-1))"@,
        None => "(module_id="@ + decimal(p.0 as int) + " AND post_id=-1)"@,
    }
}

/// The filter fetching the modules of `pairs`: their terms joined by ` OR `.
pub fn bound_modules_filter(pairs: &Vec<(i32, Option<i32>)>) -> (s: String)
    ensures
        s@ == join(pairs@.map_values(|p: (i32, Option<i32>)| bound_term(p)), " OR "@),
{
    let mut terms: Vec<String> = Vec::new();
    let mut i: usize = 0;
    while i < pairs.len()
        invariant
            i <= pairs.len(),
            terms@.len() == i,
            forall|k: int| 0 <= k < i ==> (#[trigger] terms@[k])@ == bound_term(pairs@[k]),
        decreases pairs.len() - i,
    {
        let (m, post) = pairs[i];
        let mut v: Vec<char> = Vec::new();
        push_str(&mut v, "(module_id=");
        let dm = decimal_i64(m as i64);
        push_all(&mut v, &dm);
        match post {
            Some(p) => {
                push_str(&mut v, " AND (post_id=");
                let dp = decimal_i64(p as i64);
                push_all(&mut v, &dp);
                push_str(&mut v, " OR post_id=-1))");
            },
            None => {
                push_str(&mut v, " AND post_id=-1)");
            },
        }
        terms.push(string_of(&v));
        i = i + 1;
    }
    assert(views(terms@) =~= pairs@.map_values(|p: (i32, Option<i32>)| bound_term(p)));
    let sep = String::from_str(" OR ");
    intersperse_join(terms, &sep)
}

} // verus!

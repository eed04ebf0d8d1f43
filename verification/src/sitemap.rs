//! The entries of the site map: the front page, every post and every author.

use vstd::prelude::*;
use crate::text::{decimal, decimal_i64, push_all, push_str, string_of};

verus! {

pub struct Loc {
    pub loc: String,
}

pub struct Changefreq {
    pub changefreq: String,
}

pub struct Priority {
    pub priority: String,
}

pub struct Lastmod {
    pub lastmod: String,
}

/// One page of the site map.
pub struct Url {
    pub loc: Loc,
    pub changefreq: Changefreq,
    pub priority: Priority,
    pub lastmod: Option<Lastmod>,
}

/// The site map.
pub struct Urlset {
    pub xmlns: String,
    pub url: Vec<Url>,
}

/// A page of the site map as text: address, change frequency, priority, last change.
pub open spec fn url_view(u: Url) -> (Seq<char>, Seq<char>, Seq<char>, Option<Seq<char>>) {
    (u.loc.loc@, u.changefreq.changefreq@, u.priority.priority@, match u.lastmod {
        Some(l) => Some(l.lastmod@),
        None => None,
    })
}

/// The date a post was last changed, and its id.
pub struct PostDate {
    pub id: i32,
    /// The date, as `YYYY-MM-DD`.
    pub date: String,
}

/// An author and the date of their latest post, if known.
pub struct AuthorDate {
    pub id: i64,
    pub date: Option<String>,
}

pub open spec fn opt_text(o: Option<String>) -> Option<Seq<char>> {
    match o {
        Some(s) => Some(s@),
        None => None,
    }
}

/// The calendar date, in UTC, of a Unix time in nanoseconds, as the `time`
/// crate displays a `Date` (year, month and day).
pub uninterp spec fn calendar_date(nanos: i128) -> Seq<char>;

/// Trusted: `OffsetDateTime::from_unix_timestamp_nanos(nanos)`, then
/// `.date().to_string()`; `None` when the time is outside the crate's range.
#[verifier::external_body]
fn calendar_date_text(nanos: i128) -> (r: Option<String>)
    ensures
        r matches Some(s) ==> s@ == calendar_date(nanos),
{
    let t = time::OffsetDateTime::from_unix_timestamp_nanos(nanos).ok()?;
    Some(t.date().to_string())
}

/// The date of an optional time; the outer `None` when a date cannot be
/// written for it.
pub fn optional_date(t: Option<i128>) -> (r: Option<Option<String>>)
    ensures
        r matches Some(d) ==> opt_text(d) == match t {
            Some(n) => Some(calendar_date(n)),
            None => None,
        },
        t is None ==> r == Some(None::<String>),
{
    match t {
        Some(n) => match calendar_date_text(n) {
            Some(s) => Some(Some(s)),
            None => None,
        },
        None => Some(None),
    }
}

/// The posts of the site map with the dates of their times (Unix
/// nanoseconds); `None` when a date cannot be written.
pub fn post_dates(posts: &Vec<(i32, i128)>) -> (r: Option<Vec<PostDate>>)
    ensures
        r matches Some(v) ==> v@.len() == posts@.len() && forall|k: int|
            0 <= k < v@.len() ==> (#[trigger] v@[k]).id == posts@[k].0 && v@[k].date@ == calendar_date(posts@[k].1),
{
    let mut v: Vec<PostDate> = Vec::new();
    let mut i: usize = 0;
    while i < posts.len()
        invariant
            i <= posts.len(),
            v@.len() == i,
            forall|k: int|
                0 <= k < i ==> (#[trigger] v@[k]).id == posts@[k].0 && v@[k].date@ == calendar_date(posts@[k].1),
        decreases posts.len() - i,
    {
        let (id, t) = posts[i];
        match calendar_date_text(t) {
            Some(date) => v.push(PostDate { id, date }),
            None => return None,
        }
        i = i + 1;
    }
    Some(v)
}

/// The authors of the site map with the dates of their latest posts' times,
/// where known; `None` when a date cannot be written.
pub fn author_dates(authors: &Vec<(i64, Option<i128>)>) -> (r: Option<Vec<AuthorDate>>)
    ensures
        r matches Some(v) ==> v@.len() == authors@.len() && forall|k: int|
            0 <= k < v@.len() ==> (#[trigger] v@[k]).id == authors@[k].0 && opt_text(v@[k].date) == match authors@[k].1 {
                Some(n) => Some(calendar_date(n)),
                None => None,
            },
{
    let mut v: Vec<AuthorDate> = Vec::new();
    let mut i: usize = 0;
    while i < authors.len()
        invariant
            i <= authors.len(),
            v@.len() == i,
            forall|k: int|
                0 <= k < i ==> (#[trigger] v@[k]).id == authors@[k].0 && opt_text(v@[k].date) == match authors@[k].1 {
                    Some(n) => Some(calendar_date(n)),
                    None => None,
                },
        decreases authors.len() - i,
    {
        let (id, t) = authors[i];
        match optional_date(t) {
            Some(date) => v.push(AuthorDate { id, date }),
            None => return None,
        }
        i = i + 1;
    }
    Some(v)
}

/// The pages of the site map: the front page (daily, 1.0), each post
/// (weekly, 1.0) and each author (monthly, 0.5), in that order.
pub open spec fn site_pages(front_date: Option<Seq<char>>, posts: Seq<PostDate>, authors: Seq<AuthorDate>) -> Seq<(Seq<char>, Seq<char>, Seq<char>, Option<Seq<char>>)> {
    seq![("https://divamodarchive.com/"@, "daily"@, "1.0"@, front_date)] + posts.map_values(
        |p: PostDate| ("https://divamodarchive.com/posts/"@ + decimal(p.id as int), "weekly"@, "1.0"@, Some(p.date@)),
    ) + authors.map_values(
        |a: AuthorDate| ("https://divamodarchive.com/user/"@ + decimal(a.id as int), "monthly"@, "0.5"@, opt_text(a.date)),
    )
}

/// The site map lists the front page first with the front page's date, then
/// each post in order, at `/posts/{id}`, dated by that post's own date
/// whatever the front page's date, then each author in order, at
/// `/user/{id}`, dated by their latest post where known.
pub proof fn site_pages_date_each_page(
    front_date: Option<Seq<char>>,
    other_front_date: Option<Seq<char>>,
    posts: Seq<PostDate>,
    authors: Seq<AuthorDate>,
)
    ensures
        site_pages(front_date, posts, authors).len() == 1 + posts.len() + authors.len(),
        site_pages(front_date, posts, authors)[0].0 == "https://divamodarchive.com/"@,
        site_pages(front_date, posts, authors)[0].3 == front_date,
        forall|k: int|
            0 <= k < posts.len() ==> {
                let page = #[trigger] site_pages(front_date, posts, authors)[1 + k];
                &&& page.0 == "https://divamodarchive.com/posts/"@ + decimal(posts[k].id as int)
                &&& page.3 == Some(posts[k].date@)
                &&& page == site_pages(other_front_date, posts, authors)[1 + k]
            },
        forall|k: int|
            0 <= k < authors.len() ==> {
                let page = #[trigger] site_pages(front_date, posts, authors)[1 + posts.len() + k];
                &&& page.0 == "https://divamodarchive.com/user/"@ + decimal(authors[k].id as int)
                &&& page.3 == opt_text(authors[k].date)
            },
{
    let p = site_pages(front_date, posts, authors);
    let q = site_pages(other_front_date, posts, authors);
    assert forall|k: int| 0 <= k < posts.len() implies {
        let page = #[trigger] site_pages(front_date, posts, authors)[1 + k];
        &&& page.0 == "https://divamodarchive.com/posts/"@ + decimal(posts[k].id as int)
        &&& page.3 == Some(posts[k].date@)
        &&& page == site_pages(other_front_date, posts, authors)[1 + k]
    } by {
        assert(p[1 + k] == (seq![("https://divamodarchive.com/"@, "daily"@, "1.0"@, front_date)] + posts.map_values(
            |p: PostDate| ("https://divamodarchive.com/posts/"@ + decimal(p.id as int), "weekly"@, "1.0"@, Some(p.date@)),
        ))[1 + k]);
        assert(q[1 + k] == (seq![("https://divamodarchive.com/"@, "daily"@, "1.0"@, other_front_date)] + posts.map_values(
            |p: PostDate| ("https://divamodarchive.com/posts/"@ + decimal(p.id as int), "weekly"@, "1.0"@, Some(p.date@)),
        ))[1 + k]);
    }
}

fn text(s: &str) -> (r: String)
    ensures
        r@ == s@,
{
    String::from_str(s)
}

fn copy_text(o: &Option<String>) -> (r: Option<Lastmod>)
    ensures
        match r {
            Some(l) => Some(l.lastmod@),
            None => None::<Seq<char>>,
        } == opt_text(*o),
{
    match o {
        Some(s) => Some(Lastmod { lastmod: s.clone() }),
        None => None,
    }
}

/// The site map of the service, given the front page's date (the service
/// passes the date of the first post its query in ascending time returns,
/// that is the oldest post's), the posts with their dates (newest first) and
/// the authors with the dates of their latest posts.
pub fn site_map(front_date: &Option<String>, posts: &Vec<PostDate>, authors: &Vec<AuthorDate>) -> (m: Urlset)
    ensures
        m.xmlns@ == "http://www.sitemaps.org/schemas/sitemap/0.9"@,
        m.url@.map_values(|u: Url| url_view(u)) == site_pages(opt_text(*front_date), posts@, authors@),
{
    let mut urls: Vec<Url> = Vec::new();
    urls.push(Url {
        loc: Loc { loc: text("https://divamodarchive.com/") },
        changefreq: Changefreq { changefreq: text("daily") },
        priority: Priority { priority: text("1.0") },
        lastmod: copy_text(front_date),
    });
    let ghost expected = site_pages(opt_text(*front_date), posts@, authors@);
    let mut i: usize = 0;
    while i < posts.len()
        invariant
            i <= posts.len(),
            expected == site_pages(opt_text(*front_date), posts@, authors@),
            urls@.len() == 1 + i,
            forall|k: int| 0 <= k < urls@.len() ==> url_view(#[trigger] urls@[k]) == expected[k],
        decreases posts.len() - i,
    {
        let mut loc: Vec<char> = Vec::new();
        push_str(&mut loc, "https://divamodarchive.com/posts/");
        let d = decimal_i64(posts[i].id as i64);
        push_all(&mut loc, &d);
        urls.push(Url {
            loc: Loc { loc: string_of(&loc) },
            changefreq: Changefreq { changefreq: text("weekly") },
            priority: Priority { priority: text("1.0") },
            lastmod: Some(Lastmod { lastmod: posts[i].date.clone() }),
        });
        i = i + 1;
    }
    let mut j: usize = 0;
    while j < authors.len()
        invariant
            j <= authors.len(),
            expected == site_pages(opt_text(*front_date), posts@, authors@),
            urls@.len() == 1 + posts@.len() + j,
            forall|k: int| 0 <= k < urls@.len() ==> url_view(#[trigger] urls@[k]) == expected[k],
        decreases authors.len() - j,
    {
        let mut loc: Vec<char> = Vec::new();
        push_str(&mut loc, "https://divamodarchive.com/user/");
        let d = decimal_i64(authors[j].id);
        push_all(&mut loc, &d);
        urls.push(Url {
            loc: Loc { loc: string_of(&loc) },
            changefreq: Changefreq { changefreq: text("monthly") },
            priority: Priority { priority: text("0.5") },
            lastmod: copy_text(&authors[j].date),
        });
        j = j + 1;
    }
    assert(urls@.map_values(|u: Url| url_view(u)) =~= expected);
    Urlset { xmlns: text("http://www.sitemaps.org/schemas/sitemap/0.9"), url: urls }
}

/// The site map document: the XML declaration followed by the serialised map.
pub fn sitemap_document(xml: &str) -> (doc: String)
    ensures
        doc@ == "<?xml version=\"1.0\" encoding=\"UTF-8\"?>"@ + xml@,
{
    let mut v: Vec<char> = Vec::new();
    push_str(&mut v, "<?xml version=\"1.0\" encoding=\"UTF-8\"?>");
    push_str(&mut v, xml);
    string_of(&v)
}

} // verus!

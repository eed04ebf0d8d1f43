# divamodarchive

The mod archive's service, with its rules proved in Verus.

- `src/` is the verified library:
  - `reservation.rs`: alignment of id ranges, the verdict on a requested
    range, a user's allowance, the search for a free aligned range;
  - `regroup.rs`: rewriting a user's reserved ids as maximal runs (after
    content is published, a range is released, or a range is claimed);
  - `models.rs`, `access.rs`: users, posts, the tree of a post's comments, and who may change them;
  - `search.rs`: search-index document ids, filters, chart levels, and the
    merging of a post's documents with the base game's;
  - `session.rs`, `sitemap.rs`, `extract.rs`, `listing.rs`, `text.rs`, `api.rs`:
    tokens and avatars, the site map, archive probing paths, listing
    statuses, text helpers, the interface description.
- `app/` is the web server around it (axum, sqlx, Meilisearch, Discord
  sign-in, uploads, archive unpacking).
- `tests/` runs the library on concrete values.

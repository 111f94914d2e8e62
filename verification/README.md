# blog_backend

The back end of a personal blog: articles written in Markdown with a YAML
front matter, photo galleries kept in an S3-compatible object store, a
random "photo wall" and a timeline, served over HTTP under `/rust`.

- `src/` is the library, verified with Verus: framing of front matter
  blocks, URL slugs, storage keys and SQL for posts, gallery listing
  decisions and paging, the photo wall with its time-limited cache, and
  the date order of the timeline.
  Calls into `regex`, `base64`, `rand` and `chrono` go through small
  trusted wrappers whose contracts are stated beside them.
- `app/` is the server (axum, sqlx, rust-s3) and the publishing command
  line; it performs the I/O and asks the library what to do.
- `tests/` runs the library on concrete inputs.

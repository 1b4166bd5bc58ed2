use vstd::prelude::*;

use crate::recorded::{basename, basename_chars};
use crate::text::{chars_of, ends_with, ends_with_chars, push_char, push_chars, push_str, string_of};

verus! {

/// What is kept beside a recording moved to the trash.
#[derive(Debug, Clone)]
pub struct TrashInfo {
    pub original_path: String,
    pub original_thumb_path: Option<String>,
    /// Seconds since the Unix epoch.
    pub deleted_at: u64,
}

/// The seconds in a day.
pub const SECONDS_PER_DAY: u64 = 86400;

/// How long, in seconds, a recording stays in the trash.
pub fn trash_ttl_seconds(ttl_days: u64) -> (secs: u64)
    requires
        ttl_days * 86400 <= u64::MAX,
    ensures
        secs == ttl_days * 86400,
{
    ttl_days * 24 * 3600
}

/// Whether a recording deleted at `deleted_at` has outlived `ttl_secs` at `now`: more
/// than `ttl_secs` seconds have passed.
pub open spec fn spec_is_expired(now: u64, deleted_at: u64, ttl_secs: u64) -> bool {
    now - deleted_at > ttl_secs
}

/// The whole days a recording deleted at `deleted_at` has left in the trash at `now`.
pub open spec fn spec_days_remaining(now: u64, deleted_at: u64, ttl_secs: u64) -> u64 {
    if spec_is_expired(now, deleted_at, ttl_secs) {
        0
    } else {
        ((ttl_secs - (now - deleted_at)) / 86400) as u64
    }
}

/// Whether a recording deleted at `deleted_at` has outlived `ttl_secs` at `now`.
pub fn is_expired(now: u64, deleted_at: u64, ttl_secs: u64) -> (expired: bool)
    requires
        deleted_at <= now,
    ensures
        expired == spec_is_expired(now, deleted_at, ttl_secs),
{
    now - deleted_at > ttl_secs
}

/// The whole days a recording deleted at `deleted_at` has left in the trash at `now`.
pub fn days_remaining(now: u64, deleted_at: u64, ttl_secs: u64) -> (days: u64)
    requires
        deleted_at <= now,
    ensures
        days == spec_days_remaining(now, deleted_at, ttl_secs),
        days <= ttl_secs / 86400,
        spec_is_expired(now, deleted_at, ttl_secs) ==> days == 0,
{
    if is_expired(now, deleted_at, ttl_secs) {
        0
    } else {
        (ttl_secs - (now - deleted_at)) / SECONDS_PER_DAY
    }
}

/// A recording expires once more than the time to live has passed since it was
/// deleted; until then, the days it has left are the whole days in the rest of the time
/// to live (so a recording deleted just now has the whole time to live in days left).
pub proof fn law_days_remaining_are_whole_days_left(now: u64, deleted_at: u64, ttl_secs: u64)
    requires
        deleted_at <= now,
    ensures
        spec_is_expired(now, deleted_at, ttl_secs) <==> now > deleted_at + ttl_secs,
        spec_is_expired(now, deleted_at, ttl_secs) ==> spec_days_remaining(now, deleted_at, ttl_secs)
            == 0,
        !spec_is_expired(now, deleted_at, ttl_secs) ==> {
            let days = spec_days_remaining(now, deleted_at, ttl_secs) as int;
            let left = ttl_secs - (now - deleted_at);
            days * 86400 <= left < (days + 1) * 86400
        },
        now == deleted_at ==> spec_days_remaining(now, deleted_at, ttl_secs) * 86400 <= ttl_secs
            < (spec_days_remaining(now, deleted_at, ttl_secs) + 1) * 86400,
{
    if !spec_is_expired(now, deleted_at, ttl_secs) {
        let left: int = ttl_secs - (now - deleted_at);
        assert(0 <= left);
        assert((left / 86400) * 86400 <= left < (left / 86400 + 1) * 86400) by (nonlinear_arith)
            requires
                0 <= left,
        ;
    }
}

/// As time passes, the days a recording has left in the trash never grow, and once it
/// has expired it stays expired.
pub proof fn law_days_remaining_never_grow(now1: u64, now2: u64, deleted_at: u64, ttl_secs: u64)
    requires
        deleted_at <= now1 <= now2,
    ensures
        spec_days_remaining(now2, deleted_at, ttl_secs) <= spec_days_remaining(
            now1,
            deleted_at,
            ttl_secs,
        ),
        spec_is_expired(now1, deleted_at, ttl_secs) ==> spec_is_expired(now2, deleted_at, ttl_secs),
{
    if !spec_is_expired(now2, deleted_at, ttl_secs) {
        let a = (ttl_secs - (now2 - deleted_at)) as int;
        let b = (ttl_secs - (now1 - deleted_at)) as int;
        assert(a / 86400 <= b / 86400) by (nonlinear_arith)
            requires
                0 <= a <= b,
        ;
    }
}

/// The name of the file beside a trashed recording that holds its `TrashInfo`.
pub open spec fn info_file_text(id: Seq<char>) -> Seq<char> {
    id + ".info"@
}

/// The name of the file that holds the `TrashInfo` of the trashed recording `id`.
pub fn info_file_name(id: &str) -> (name: String)
    ensures
        name@ == info_file_text(id@),
{
    let mut name = String::new();
    push_str(&mut name, id);
    push_str(&mut name, ".info");
    name
}

/// The URL of the thumbnail of a trashed recording.
pub open spec fn trash_thumbnail_url_text(id: Seq<char>) -> Seq<char> {
    "/api/trash/thumbnails/"@ + basename(id) + ".jpg"@
}

/// The URL of the thumbnail of the trashed recording `id`.
pub fn trash_thumbnail_url(id: &str) -> (url: String)
    ensures
        url@ == trash_thumbnail_url_text(id@),
{
    let base = basename_chars(id);
    let mut url = String::new();
    push_str(&mut url, "/api/trash/thumbnails/");
    push_chars(&mut url, &base);
    push_str(&mut url, ".jpg");
    assert(url@ =~= trash_thumbnail_url_text(id@));
    url
}

/// The thumbnail image that belongs to a recording moved to the trash: for a file
/// ending in `.m2ts` or `.ts`, its base name and `.jpg`; none otherwise.
pub open spec fn thumbnail_of_trashed_text(id: Seq<char>) -> Option<Seq<char>> {
    if ends_with(id, ".m2ts"@) || ends_with(id, ".ts"@) {
        Some(basename(id) + ".jpg"@)
    } else {
        None
    }
}

/// The thumbnail image that belongs to the recording `id` moved to the trash.
pub fn thumbnail_of_trashed(id: &str) -> (name: Option<String>)
    ensures
        match thumbnail_of_trashed_text(id@) {
            Some(t) => name is Some && name->0@ == t,
            None => name is None,
        },
{
    let v = chars_of(id);
    let m2ts = chars_of(".m2ts");
    let ts = chars_of(".ts");
    if ends_with_chars(&v, &m2ts) || ends_with_chars(&v, &ts) {
        let base = basename_chars(id);
        let mut name = string_of(&base);
        push_str(&mut name, ".jpg");
        Some(name)
    } else {
        None
    }
}

/// `s` without its double quotes.
pub open spec fn without_quotes(s: Seq<char>) -> Seq<char> {
    s.filter(|c: char| c != '"')
}

/// The `Content-Disposition` value that offers the recording `id` as a download, with
/// double quotes removed from the name.
pub open spec fn disposition_text(id: Seq<char>) -> Seq<char> {
    "attachment; filename=\""@ + without_quotes(id) + "\""@
}

/// The `Content-Disposition` value that offers the recording `id` as a download.
pub fn download_disposition(id: &str) -> (value: String)
    ensures
        value@ == disposition_text(id@),
{
    let v = chars_of(id);
    let mut value = String::new();
    push_str(&mut value, "attachment; filename=\"");
    let ghost start = value@;
    let mut i: usize = 0;
    while i < v.len()
        invariant
            i <= v@.len(),
            value@ == start + without_quotes(v@.subrange(0, i as int)),
        decreases v@.len() - i,
    {
        proof {
            assert(v@.subrange(0, i + 1).drop_last() =~= v@.subrange(0, i as int));
            reveal(Seq::filter);
        }
        if v[i] != '"' {
            push_char(&mut value, v[i]);
        }
        i += 1;
    }
    assert(v@.subrange(0, v@.len() as int) =~= v@);
    push_str(&mut value, "\"");
    value
}

} // verus!

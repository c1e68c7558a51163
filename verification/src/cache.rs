//! The retrieval cache's decisions: the artifact's file name for a page
//! and format, and whether a stored artifact may be reused.

use crate::formats::PageFormat;
use crate::text::push_char;
use vstd::prelude::*;
use vstd::string::StrSliceExecFns;
use vstd::string::StringExecFns;

verus! {

/// How long an artifact stays fresh, in seconds: fourteen days.
pub const DEFAULT_CACHE_TTL_SECS: u64 = 1209600;

/// A character kept as itself in a cache file name.
pub open spec fn is_path_safe(c: char) -> bool {
    ('a' <= c && c <= 'z') || ('A' <= c && c <= 'Z') || ('0' <= c && c <= '9') || c == '-'
        || c == '_'
}

/// One character of a page identity mapped to its file-name form.
pub open spec fn sanitize_char(c: char) -> char {
    if is_path_safe(c) {
        c
    } else {
        '_'
    }
}

/// A page identity mapped, character for character, to a filesystem-safe
/// token; the map is deterministic, collisions between distinct pages are
/// an accepted risk.
pub open spec fn sanitize_spec(s: Seq<char>) -> Seq<char> {
    Seq::new(s.len(), |i: int| sanitize_char(s[i]))
}

/// Maps a page identity to its filesystem-safe token.
pub fn sanitize_page_name(page: &str) -> (r: String)
    ensures
        r@ == sanitize_spec(page@),
{
    let len = page.unicode_len();
    let mut out = String::new();
    let mut i: usize = 0;
    while i < len
        invariant
            0 <= i <= len,
            len == page@.len(),
            out@.len() == i,
            forall|j: int| 0 <= j < i ==> out@[j] == sanitize_spec(page@)[j],
        decreases len - i,
    {
        let c = page.get_char(i);
        let safe = ('a' <= c && c <= 'z') || ('A' <= c && c <= 'Z') || ('0' <= c && c <= '9')
            || c == '-' || c == '_';
        if safe {
            push_char(&mut out, c);
        } else {
            push_char(&mut out, '_');
        }
        i = i + 1;
    }
    proof {
        assert(out@ =~= sanitize_spec(page@));
    }
    out
}

/// The cache file extension of each output format.
pub open spec fn format_extension(f: PageFormat) -> Seq<char> {
    match f {
        PageFormat::PlainText => "txt"@,
        PageFormat::Markdown => "md"@,
        PageFormat::Html => "html"@,
    }
}

/// Returns the cache file extension of the format.
pub fn page_extension(format: PageFormat) -> (r: &'static str)
    ensures
        r@ == format_extension(format),
{
    match format {
        PageFormat::PlainText => "txt",
        PageFormat::Markdown => "md",
        PageFormat::Html => "html",
    }
}

/// The artifact path for a page and format:
/// `{cache_dir}/{sanitized_page}.{extension}`.
pub fn create_cache_page_path(page: &str, format: PageFormat, cache_dir: &str) -> (r: String)
    ensures
        r@ == cache_dir@ + "/"@ + sanitize_spec(page@) + "."@ + format_extension(format),
{
    let mut out = cache_dir.to_owned();
    out.append("/");
    let token = sanitize_page_name(page);
    out.append(token.as_str());
    out.append(".");
    out.append(page_extension(format));
    out
}

/// Whether a stored artifact of the given age may be reused: always when
/// invalidation is disabled, otherwise only within the time-to-live.
pub open spec fn cache_fresh_spec(
    age_secs: u64,
    ttl_secs: u64,
    invalidation_disabled: bool,
) -> bool {
    invalidation_disabled || age_secs <= ttl_secs
}

/// Decides whether a stored artifact of the given age may be reused.
pub fn is_cache_fresh(age_secs: u64, ttl_secs: u64, invalidation_disabled: bool) -> (r: bool)
    ensures
        r == cache_fresh_spec(age_secs, ttl_secs, invalidation_disabled),
{
    invalidation_disabled || age_secs <= ttl_secs
}

/// Decides whether the cached artifact is used in place of a fetch: only
/// when the caller does not ignore the cache, the artifact exists, and it
/// is fresh.
pub fn should_use_cache(
    exists: bool,
    ignore_cache: bool,
    age_secs: u64,
    ttl_secs: u64,
    invalidation_disabled: bool,
) -> (r: bool)
    ensures
        r == (!ignore_cache && exists && cache_fresh_spec(
            age_secs,
            ttl_secs,
            invalidation_disabled,
        )),
{
    !ignore_cache && exists && is_cache_fresh(age_secs, ttl_secs, invalidation_disabled)
}

/// The cache freshness law: an artifact written now is fresh; one older
/// than the time-to-live is stale when invalidation is enabled; and with
/// invalidation disabled every artifact counts as fresh, whatever its age.
pub proof fn lemma_cache_freshness(age_secs: u64, ttl_secs: u64)
    ensures
        cache_fresh_spec(0, ttl_secs, false),
        age_secs > ttl_secs ==> !cache_fresh_spec(age_secs, ttl_secs, false),
        cache_fresh_spec(age_secs, ttl_secs, true),
{
}

} // verus!

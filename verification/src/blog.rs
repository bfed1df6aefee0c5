//! Extracting the newest blog post from a homepage.
//!
//! The homepage's HTML is searched for the first post card; its link target
//! and title become the post. When the card pattern finds nothing, a looser
//! fallback looks for any link target and any post title, and when even that
//! fails, a placeholder post stands in — a degraded result is acceptable
//! here, never an error. A relative link target is resolved against the blog's
//! base address; an absolute one is kept as it is.

use vstd::prelude::*;
use vstd::string::StrSliceExecFns;
use vstd::string::StringExecFns;

verus! {

/// The first post card: its link target (group 1) and title (group 2).
pub const POST_CARD_PATTERN: &'static str =
    "(?s)<div class=\"post-card\" onclick=\"window\\.location\\.href='([^']+)'\">.*?<div class=\"post-title\">([^<]+)</div>";

/// Any link target (group 1), the looser fallback.
pub const ONCLICK_PATTERN: &'static str = "onclick=\"window\\.location\\.href='([^']+)'";

/// Any post title (group 1), the looser fallback.
pub const TITLE_PATTERN: &'static str = "<div class=\"post-title\">([^<]+)</div>";

/// The base address a relative link target is resolved against.
pub const BLOG_BASE_URL: &'static str = "https://andriak.com/";

/// The newest post of the blog.
pub struct BlogPost {
    pub title: String,
    pub url: String,
}

/// What the leftmost match of a pattern captures in a text: group 0 is the
/// whole match, an unmatched group reads as empty. The result depends on the
/// two strings alone.
pub uninterp spec fn captures_of(pattern: Seq<char>, text: Seq<char>) -> Option<Seq<Seq<char>>>;

/// What trimming leading and trailing whitespace leaves of a string.
pub uninterp spec fn trimmed_of(s: Seq<char>) -> Seq<char>;

/// Relies on regex::Regex::new and regex::Regex::captures: for a fixed
/// pattern the leftmost match and its capture groups depend on the pattern
/// and the text alone; a pattern that does not compile matches nothing.
#[verifier::external_body]
fn regex_captures(pattern: &str, text: &str) -> (r: Option<Vec<String>>)
    ensures
        r is Some <==> captures_of(pattern@, text@) is Some,
        r matches Some(g) ==> g.deep_view() == captures_of(pattern@, text@)->Some_0,
{
    let re = match regex::Regex::new(pattern) {
        Ok(re) => re,
        Err(_) => return None,
    };
    re.captures(text).map(
        |caps|
            caps.iter().map(
                |m| m.map_or(String::new(), |m| m.as_str().to_string()),
            ).collect(),
    )
}

/// Relies on str::trim: what whitespace it strips depends on the characters
/// alone, and the result is a piece of the input, so never longer.
#[verifier::external_body]
fn trim_text(s: &str) -> (r: String)
    ensures
        r@ == trimmed_of(s@),
        r@.len() <= s@.len(),
{
    s.trim().to_owned()
}

/// Whether the text begins with "http".
pub open spec fn starts_with_http(s: Seq<char>) -> bool {
    s.len() >= 4 && s[0] == 'h' && s[1] == 't' && s[2] == 't' && s[3] == 'p'
}

/// The text with its leading slashes removed.
pub open spec fn strip_slashes(s: Seq<char>) -> Seq<char>
    decreases s.len(),
{
    if s.len() > 0 && s[0] == '/' {
        strip_slashes(s.drop_first())
    } else {
        s
    }
}

/// The full address of a link target: an absolute target as it stands, a
/// relative one resolved against the blog's base address.
pub open spec fn url_of(path: Seq<char>) -> Seq<char> {
    if starts_with_http(path) {
        path
    } else {
        BLOG_BASE_URL@ + strip_slashes(path)
    }
}

/// What the fallback extraction yields: any link target with any title, and
/// the placeholder post when no target is found at all.
pub open spec fn spec_blog_fallback(html: Seq<char>) -> (Seq<char>, Seq<char>) {
    let url_path = match captures_of(ONCLICK_PATTERN@, html) {
        Some(g) => if g.len() >= 2 {
            g[1]
        } else {
            Seq::<char>::empty()
        },
        None => Seq::<char>::empty(),
    };
    let title = match captures_of(TITLE_PATTERN@, html) {
        Some(g) => if g.len() >= 2 {
            trimmed_of(g[1])
        } else {
            "Latest Post"@
        },
        None => "Latest Post"@,
    };
    if url_path.len() > 0 {
        (title, url_of(url_path))
    } else {
        ("Latest Post"@, "https://andriak.com"@)
    }
}

/// What extraction yields: the first post card's title and resolved link,
/// else the fallback.
pub open spec fn spec_blog_post(html: Seq<char>) -> (Seq<char>, Seq<char>) {
    match captures_of(POST_CARD_PATTERN@, html) {
        Some(g) => if g.len() >= 3 {
            (trimmed_of(g[2]), url_of(g[1]))
        } else {
            spec_blog_fallback(html)
        },
        None => spec_blog_fallback(html),
    }
}

/// Strip leading slashes from the text.
fn strip_slashes_exec(s: &str) -> (r: &str)
    ensures
        r@ == strip_slashes(s@),
{
    let n = s.unicode_len();
    let mut i: usize = 0;
    proof {
        assert(s@.skip(0) =~= s@);
    }
    while i < n
        invariant
            0 <= i <= n,
            n == s@.len(),
            strip_slashes(s@) == strip_slashes(s@.skip(i as int)),
            i < n ==> s@.skip(i as int).len() > 0,
        decreases n - i,
    {
        let c = s.get_char(i);
        assert(s@.skip(i as int)[0] == s@[i as int]);
        if c != '/' {
            let r = s.substring_char(i, n);
            assert(r@ =~= s@.skip(i as int));
            return r;
        }
        assert(s@.skip(i as int).drop_first() =~= s@.skip(i + 1));
        i += 1;
    }
    let r = s.substring_char(n, n);
    assert(r@ =~= s@.skip(n as int));
    assert(s@.skip(n as int) =~= Seq::<char>::empty());
    r
}

/// Resolve a link target to a full address.
fn normalize_url(path: &str) -> (r: String)
    ensures
        r@ == url_of(path@),
{
    let n = path.unicode_len();
    let absolute = n >= 4 && path.get_char(0) == 'h' && path.get_char(1) == 't' && path.get_char(
        2,
    ) == 't' && path.get_char(3) == 'p';
    if absolute {
        path.to_owned()
    } else {
        let stripped = strip_slashes_exec(path);
        let base = String::from_str(BLOG_BASE_URL);
        base.concat(stripped)
    }
}

/// Read the newest post out of the homepage's HTML: the first post card's
/// link and trimmed title, a looser fallback when no card matches, and the
/// placeholder post when nothing matches at all.
pub fn parse_first_blog_post(html: &str) -> (r: BlogPost)
    ensures
        r.title@ == spec_blog_post(html@).0,
        r.url@ == spec_blog_post(html@).1,
{
    let primary = regex_captures(POST_CARD_PATTERN, html);
    match primary {
        Some(g) => {
            if g.len() >= 3 {
                proof {
                    assert(g.deep_view()[1] == g@[1]@);
                    assert(g.deep_view()[2] == g@[2]@);
                }
                let title = trim_text(g[2].as_str());
                let url = normalize_url(g[1].as_str());
                return BlogPost { title, url };
            }
            parse_blog_fallback(html)
        },
        None => parse_blog_fallback(html),
    }
}

/// The looser extraction: any link target, any title, or the placeholder.
fn parse_blog_fallback(html: &str) -> (r: BlogPost)
    ensures
        r.title@ == spec_blog_fallback(html@).0,
        r.url@ == spec_blog_fallback(html@).1,
{
    let url_path: String = match regex_captures(ONCLICK_PATTERN, html) {
        Some(g) => {
            if g.len() >= 2 {
                proof {
                    assert(g.deep_view()[1] == g@[1]@);
                }
                let p = &g[1];
                p.clone()
            } else {
                String::new()
            }
        },
        None => String::new(),
    };
    let title: String = match regex_captures(TITLE_PATTERN, html) {
        Some(g) => {
            if g.len() >= 2 {
                proof {
                    assert(g.deep_view()[1] == g@[1]@);
                }
                trim_text(g[1].as_str())
            } else {
                String::from_str("Latest Post")
            }
        },
        None => String::from_str("Latest Post"),
    };
    if !url_path.as_str().is_empty() {
        let url = normalize_url(url_path.as_str());
        BlogPost { title, url }
    } else {
        BlogPost { title: String::from_str("Latest Post"), url: String::from_str(
            "https://andriak.com",
        ) }
    }
}

} // verus!

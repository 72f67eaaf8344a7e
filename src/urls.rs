//! Finding the scripts that a page links to, and resolving their addresses.
use vstd::prelude::*;

use crate::text::{chars_of, find_from, find_spec, slice_chars, starts_with, starts_with_text};

verus! {

/// `u` without the slashes at its end.
pub open spec fn trim_end_slashes(u: Seq<char>) -> Seq<char>
    decreases u.len(),
{
    if u.len() > 0 && u.last() == '/' {
        trim_end_slashes(u.drop_last())
    } else {
        u
    }
}

/// The scheme and host of `u` (`https://example.com` for
/// `https://example.com/a/b`); `u` without its trailing slashes where no path
/// follows the host.
pub open spec fn base_url_spec(u: Seq<char>) -> Seq<char> {
    match find_spec(u, "://"@, 0) {
        Some(idx) => match find_spec(u, seq!['/'], idx + "://"@.len()) {
            Some(s) => u.subrange(0, s),
            None => trim_end_slashes(u),
        },
        None => trim_end_slashes(u),
    }
}

/// The absolute address of a script reference `src` found on the page at
/// `page`, whose scheme and host are `base`.
pub open spec fn resolve_spec(src: Seq<char>, page: Seq<char>, base: Seq<char>) -> Seq<char> {
    if starts_with_text(src, "http://"@) || starts_with_text(src, "https://"@) {
        src
    } else if starts_with_text(src, "//"@) {
        "https:"@ + src
    } else if starts_with_text(src, "/"@) {
        base + src
    } else {
        trim_end_slashes(page) + "/"@ + src
    }
}

/// Where the script tag that starts at `tag` ends: at its first `>`, or at
/// the end of the text.
pub open spec fn tag_end_spec(h: Seq<char>, tag: int) -> int {
    match find_spec(h, seq!['>'], tag) {
        Some(e) => e,
        None => h.len() as int,
    }
}

/// The value of the `src` attribute quoted with `q` in the script tag that
/// starts at `tag`, if the tag holds one.
pub open spec fn tag_src_spec(h: Seq<char>, tag: int, q: char) -> Option<Seq<char>> {
    let content = h.subrange(tag, tag_end_spec(h, tag));
    let attr = "src="@.push(q);
    match find_spec(content, attr, 0) {
        Some(a) => {
            let start = a + attr.len();
            match find_spec(content, seq![q], start) {
                Some(e) => Some(content.subrange(start, e)),
                None => None,
            }
        },
        None => None,
    }
}

/// The `src` values quoted with `q` of the script tags that start at or after
/// `from`, in order.
pub open spec fn sources_from(h: Seq<char>, q: char, from: int) -> Seq<Seq<char>>
    decreases h.len() + 1 - from,
{
    match find_spec(h, "<script"@, from) {
        Some(t) => {
            let rest = if t + 1 <= h.len() {
                sources_from(h, q, t + 1)
            } else {
                Seq::empty()
            };
            match tag_src_spec(h, t, q) {
                Some(s) => seq![s] + rest,
                None => rest,
            }
        },
        None => Seq::empty(),
    }
}

/// `s` without its repeated items; each item is kept where it first occurs.
pub open spec fn dedup(s: Seq<Seq<char>>) -> Seq<Seq<char>>
    decreases s.len(),
{
    if s.len() == 0 {
        s
    } else {
        let d = dedup(s.drop_last());
        if d.contains(s.last()) {
            d
        } else {
            d.push(s.last())
        }
    }
}

/// The texts of a sequence of strings.
pub open spec fn texts(v: Seq<String>) -> Seq<Seq<char>> {
    v.map_values(|s: String| s@)
}

/// The addresses of the scripts that the page `h` at `page` links to: the
/// double-quoted sources first, then the single-quoted ones, each resolved
/// against the page, without repeats.
pub open spec fn script_urls_spec(h: Seq<char>, page: Seq<char>, base: Seq<char>) -> Seq<Seq<char>> {
    dedup(
        (sources_from(h, '"', 0) + sources_from(h, '\'', 0)).map_values(
            |s: Seq<char>| resolve_spec(s, page, base),
        ),
    )
}

fn single(c: char) -> (r: Vec<char>)
    ensures
        r@ == seq![c],
{
    let mut r: Vec<char> = Vec::new();
    r.push(c);
    r
}

/// The length of `u` without the slashes at its end.
fn trimmed_len(u: &Vec<char>) -> (k: usize)
    ensures
        k <= u.len(),
        u@.subrange(0, k as int) == trim_end_slashes(u@),
{
    let mut k = u.len();
    assert(u@.subrange(0, k as int) =~= u@);
    while k > 0 && u[k - 1] == '/'
        invariant
            k <= u.len(),
            trim_end_slashes(u@.subrange(0, k as int)) == trim_end_slashes(u@),
        decreases k,
    {
        assert(u@.subrange(0, k as int).drop_last() =~= u@.subrange(0, k - 1));
        k = k - 1;
    }
    k
}

/// `s` as an owned string.
fn owned(s: &str) -> (r: String)
    ensures
        r@ == s@,
{
    String::from_str(s)
}

/// The scheme and host of a URL, or the URL without its trailing slashes
/// where no path follows the host.
pub fn extract_base_url(url: &str) -> (r: String)
    ensures
        r@ == base_url_spec(url@),
{
    let u = chars_of(url);
    let sep = chars_of("://");
    if let Some(idx) = find_from(&u, &sep, 0) {
        let slash = single('/');
        assert(idx + sep@.len() <= u@.len() == u.len());
        if let Some(s) = find_from(&u, &slash, idx + sep.len()) {
            return owned(url.substring_char(0, s));
        }
    }
    let k = trimmed_len(&u);
    owned(url.substring_char(0, k))
}

/// The absolute address of the script reference `src` found on the page at
/// `page_url`, whose scheme and host are `base_url`.
pub fn resolve_url(src: &str, page_url: &str, base_url: &str) -> (r: String)
    ensures
        r@ == resolve_spec(src@, page_url@, base_url@),
{
    let s = chars_of(src);
    if starts_with(&s, &chars_of("http://")) || starts_with(&s, &chars_of("https://")) {
        owned(src)
    } else if starts_with(&s, &chars_of("//")) {
        let mut r = owned("https:");
        r.append(src);
        r
    } else if starts_with(&s, &chars_of("/")) {
        let mut r = owned(base_url);
        r.append(src);
        r
    } else {
        let p = chars_of(page_url);
        let k = trimmed_len(&p);
        let mut r = owned(page_url.substring_char(0, k));
        r.append("/");
        r.append(src);
        r
    }
}

/// Appends `u` unless `urls` already holds it.
fn push_new(urls: &mut Vec<String>, u: String)
    ensures
        texts(final(urls)@) == if texts(old(urls)@).contains(u@) {
            texts(old(urls)@)
        } else {
            texts(old(urls)@).push(u@)
        },
{
    let mut i: usize = 0;
    while i < urls.len()
        invariant
            i <= urls.len(),
            forall|j: int| 0 <= j < i ==> urls@[j]@ != u@,
        decreases urls.len() - i,
    {
        if urls[i] == u {
            assert(texts(urls@)[i as int] == u@);
            return;
        }
        i = i + 1;
    }
    assert(!texts(urls@).contains(u@));
    urls.push(u);
    assert(texts(urls@) =~= texts(old(urls)@).push(u@));
}

/// The value of the `src` attribute quoted with `q` in the script tag that
/// starts at `tag`, as a range of positions in `h`.
fn tag_src(h: &Vec<char>, tag: usize, q: char) -> (r: Option<(usize, usize)>)
    requires
        tag <= h.len(),
    ensures
        match r {
            Some((a, b)) => a <= b <= h.len() && tag_src_spec(h@, tag as int, q) == Some(
                h@.subrange(a as int, b as int),
            ),
            None => tag_src_spec(h@, tag as int, q) is None,
        },
{
    let gt = single('>');
    let tag_end = match find_from(h, &gt, tag) {
        Some(e) => e,
        None => h.len(),
    };
    assert(tag_end == tag_end_spec(h@, tag as int));
    let content = slice_chars(h, tag, tag_end);
    let mut attr = chars_of("src=");
    attr.push(q);
    match find_from(&content, &attr, 0) {
        Some(a) => {
            assert(a + attr@.len() <= content@.len() == content.len());
            let start = a + attr.len();
            let quote = single(q);
            match find_from(&content, &quote, start) {
                Some(e) => {
                    assert(content@.subrange(start as int, e as int) =~= h@.subrange(
                        tag + start,
                        tag + e,
                    ));
                    Some((tag + start, tag + e))
                },
                None => None,
            }
        },
        None => None,
    }
}

/// Appends, without repeats, the resolved `src` values quoted with `q` of the
/// script tags in `html`.
fn collect_sources(
    h: &Vec<char>,
    html: &str,
    q: char,
    page_url: &str,
    base_url: &str,
    urls: &mut Vec<String>,
    Ghost(prior): Ghost<Seq<Seq<char>>>,
)
    requires
        h@ == html@,
        texts(old(urls)@) == dedup(prior),
    ensures
        texts(final(urls)@) == dedup(
            prior + sources_from(h@, q, 0).map_values(
                |s: Seq<char>| resolve_spec(s, page_url@, base_url@),
            ),
        ),
{
    let ghost res = |s: Seq<char>| resolve_spec(s, page_url@, base_url@);
    let tag = chars_of("<script");
    proof {
        reveal_strlit("<script");
    }
    assert(tag@.len() > 0);
    let ghost mut acc: Seq<Seq<char>> = Seq::empty();
    let mut search_pos: usize = 0;
    assert(acc + sources_from(h@, q, 0) =~= sources_from(h@, q, 0));
    assert(prior + acc.map_values(res) =~= prior);
    loop
        invariant
            h@ == html@,
            tag@ == "<script"@,
            tag@.len() > 0,
            res == (|s: Seq<char>| resolve_spec(s, page_url@, base_url@)),
            search_pos <= h.len(),
            acc + sources_from(h@, q, search_pos as int) == sources_from(h@, q, 0),
            texts(urls@) == dedup(prior + acc.map_values(res)),
        ensures
            acc == sources_from(h@, q, 0),
            texts(urls@) == dedup(prior + acc.map_values(res)),
        decreases h.len() + 1 - search_pos,
    {
        match find_from(h, &tag, search_pos) {
            None => {
                assert(acc =~= acc + sources_from(h@, q, search_pos as int));
                break;
            },
            Some(t) => {
                let ghost rest = sources_from(h@, q, t + 1);
                assert(t + 1 <= h@.len());
                match tag_src(h, t, q) {
                    Some((a, b)) => {
                        let ghost s = h@.subrange(a as int, b as int);
                        let src = html.substring_char(a, b);
                        let u = resolve_url(src, page_url, base_url);
                        push_new(urls, u);
                        proof {
                            let x = prior + acc.map_values(res);
                            assert(u@ == res(s));
                            assert(x.push(res(s)).drop_last() =~= x);
                            assert(dedup(x.push(res(s))) == if dedup(x).contains(res(s)) {
                                dedup(x)
                            } else {
                                dedup(x).push(res(s))
                            });
                            assert(sources_from(h@, q, search_pos as int) == seq![s] + rest);
                            assert(acc.push(s) + rest =~= acc + (seq![s] + rest));
                            assert((prior + acc.push(s).map_values(res)) =~= (prior + acc.map_values(
                                res,
                            )).push(res(s)));
                            acc = acc.push(s);
                        }
                    },
                    None => {
                        assert(sources_from(h@, q, search_pos as int) == rest);
                    },
                }
                search_pos = t + 1;
            },
        }
    }
}

/// The addresses of the scripts that `html`, the page at `page_url` on the
/// host `base_url`, links to with `<script ... src="...">` or
/// `<script ... src='...'>`: double-quoted first, each resolved against the
/// page, without repeats.
pub fn extract_js_urls(html: &str, page_url: &str, base_url: &str) -> (r: Vec<String>)
    ensures
        texts(r@) == script_urls_spec(html@, page_url@, base_url@),
{
    let ghost res = |s: Seq<char>| resolve_spec(s, page_url@, base_url@);
    let h = chars_of(html);
    let mut urls: Vec<String> = Vec::new();
    assert(texts(urls@) =~= dedup(Seq::empty()));
    collect_sources(&h, html, '"', page_url, base_url, &mut urls, Ghost(Seq::empty()));
    let ghost first = Seq::<Seq<char>>::empty() + sources_from(h@, '"', 0).map_values(res);
    collect_sources(&h, html, '\'', page_url, base_url, &mut urls, Ghost(first));
    assert(first + sources_from(h@, '\'', 0).map_values(res) =~= (sources_from(h@, '"', 0)
        + sources_from(h@, '\'', 0)).map_values(res));
    urls
}

} // verus!

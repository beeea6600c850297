//! The HTML page that lists a directory.
use vstd::prelude::*;
use vstd::utf8::encode_utf8;
use std::fmt::Write;
use crate::http::{string_bytes, text_html_mime, SimpleResponse, STATUS_OK};
use crate::paths::{join_components, join_first_components, join_with_slash, views};
use crate::text::concat;

verus! {

/// How one character is written in HTML text: `&`, `<`, `>` and `"` become
/// entities; every other character stays.
pub open spec fn escaped_char(c: char) -> Seq<char> {
    if c == '&' {
        seq!['&', 'a', 'm', 'p', ';']
    } else if c == '<' {
        seq!['&', 'l', 't', ';']
    } else if c == '>' {
        seq!['&', 'g', 't', ';']
    } else if c == '"' {
        seq!['&', 'q', 'u', 'o', 't', ';']
    } else {
        seq![c]
    }
}

/// Text escaped for HTML, character by character.
pub open spec fn html_escaped(s: Seq<char>) -> Seq<char>
    decreases s.len(),
{
    if s.len() == 0 {
        seq![]
    } else {
        html_escaped(s.drop_last()) + escaped_char(s.last())
    }
}

/// Writes `text` through `maud::Escaper` (its `fmt::Write::write_str`) into a
/// new string. The contract claims what maud's documentation of `Escaper`
/// lists: `&`, `<`, `>` and `"` are escaped as `&amp;`, `&lt;`, `&gt;` and
/// `&quot;`, and every other character is passed through unchanged.
#[verifier::external_body]
fn html_escape(text: &str) -> (r: String)
    ensures
        r@ == html_escaped(text@),
{
    let mut out = String::new();
    let _ = maud::Escaper::new(&mut out).write_str(text);
    out
}

/// Takes the text of `maud::DOCTYPE`, which maud defines as `<!DOCTYPE html>`;
/// the contract says that text.
#[verifier::external_body]
fn doctype() -> (r: String)
    ensures
        r@ == "<!DOCTYPE html>"@,
{
    maud::DOCTYPE.0.to_string()
}

/// The list item that links to the parent of the current directory, if it has one.
pub open spec fn parent_item(cur: Seq<Seq<char>>) -> Seq<char> {
    if cur.len() == 0 {
        seq![]
    } else {
        "<li><a href=\"/"@ + html_escaped(join_with_slash(cur.drop_last())) + "\">..</a></li>"@
    }
}

/// The path that entry links of the current directory start with.
pub open spec fn link_prefix(cur: Seq<Seq<char>>) -> Seq<char> {
    if cur.len() == 0 {
        seq![]
    } else {
        seq!['/'] + join_with_slash(cur)
    }
}

/// The list item that links to one entry.
pub open spec fn entry_item(prefix: Seq<char>, entry: Seq<char>) -> Seq<char> {
    "<li><a href=\""@ + html_escaped(prefix) + "/"@ + html_escaped(entry) + "\">"@
        + html_escaped(entry) + "</a></li>"@
}

/// The list items of the entries, in order.
pub open spec fn entry_items(prefix: Seq<char>, entries: Seq<Seq<char>>) -> Seq<char>
    decreases entries.len(),
{
    if entries.len() == 0 {
        seq![]
    } else {
        entry_items(prefix, entries.drop_last()) + entry_item(prefix, entries.last())
    }
}

/// The page that lists `entries` of the directory whose path, relative to the
/// served root, has the components `cur`.
pub open spec fn listing_page(cur: Seq<Seq<char>>, entries: Seq<Seq<char>>) -> Seq<char> {
    let shown = html_escaped(join_with_slash(cur));
    "<!DOCTYPE html>"@ + "<html><head><title>HTTP File Server - "@ + shown
        + "/</title></head><body><h1>"@ + shown + "/</h1><ul>"@ + parent_item(cur) + entry_items(
        link_prefix(cur),
        entries,
    ) + "</ul></body></html>"@
}

/// The HTML response that lists a directory.
pub fn construct_html_directory_listing_response(cur_path: &[String], entries: &[String]) -> (r:
    SimpleResponse)
    ensures
        r.status == STATUS_OK,
        r.content_type@ == "text/html"@,
        r.content_length is None,
        r.body@ == encode_utf8(listing_page(views(cur_path@), views(entries@))),
{
    let ghost cur = views(cur_path@);
    let joined = join_components(cur_path);
    let shown = html_escape(joined.as_str());
    let mut page = doctype();
    page.append("<html><head><title>HTTP File Server - ");
    page.append(shown.as_str());
    page.append("/</title></head><body><h1>");
    page.append(shown.as_str());
    page.append("/</h1><ul>");
    let ghost head = page@;
    let n = cur_path.len();
    if n > 0 {
        let parent = join_first_components(cur_path, n - 1);
        assert(views(cur_path@).take(n - 1) =~= cur.drop_last());
        let parent_shown = html_escape(parent.as_str());
        page.append("<li><a href=\"/");
        page.append(parent_shown.as_str());
        page.append("\">..</a></li>");
    }
    assert(page@ =~= head + parent_item(cur));
    let ghost with_parent = page@;
    let prefix = if n > 0 {
        concat("/", joined.as_str())
    } else {
        String::new()
    };
    proof {
        reveal_strlit("/");
    }
    assert(prefix@ =~= link_prefix(cur));
    let prefix_shown = html_escape(prefix.as_str());
    let ghost es = views(entries@);
    let m = entries.len();
    let mut i: usize = 0;
    assert(es.take(0) =~= Seq::<Seq<char>>::empty());
    while i < m
        invariant
            m == entries@.len(),
            es == views(entries@),
            i <= m,
            prefix_shown@ == html_escaped(link_prefix(cur)),
            page@ == with_parent + entry_items(link_prefix(cur), es.take(i as int)),
        decreases m - i,
    {
        let ghost before = page@;
        let shown_entry = html_escape(entries[i].as_str());
        page.append("<li><a href=\"");
        page.append(prefix_shown.as_str());
        page.append("/");
        page.append(shown_entry.as_str());
        page.append("\">");
        page.append(shown_entry.as_str());
        page.append("</a></li>");
        assert(es.take(i + 1).drop_last() =~= es.take(i as int));
        assert(es.take(i + 1).last() == entries@[i as int]@);
        assert(page@ =~= before + entry_item(link_prefix(cur), entries@[i as int]@));
        i = i + 1;
    }
    assert(es.take(m as int) =~= es);
    page.append("</ul></body></html>");
    assert(page@ =~= listing_page(cur, es));
    let body = string_bytes(page.as_str());
    SimpleResponse { status: STATUS_OK, content_type: text_html_mime(), content_length: None, body }
}

/// Escaped text holds no `<`, `>` or `"`: a name shown in the listing cannot
/// open or close a tag or end an attribute value.
pub proof fn lemma_escaped_text_has_no_markup(s: Seq<char>)
    ensures
        forall|i: int|
            0 <= i < html_escaped(s).len() ==> #[trigger] html_escaped(s)[i] != '<'
                && html_escaped(s)[i] != '>' && html_escaped(s)[i] != '"',
    decreases s.len(),
{
    if s.len() > 0 {
        lemma_escaped_text_has_no_markup(s.drop_last());
        let front = html_escaped(s.drop_last());
        let back = escaped_char(s.last());
        assert forall|i: int| 0 <= i < html_escaped(s).len() implies #[trigger] html_escaped(s)[i]
            != '<' && html_escaped(s)[i] != '>' && html_escaped(s)[i] != '"' by {
            if i < front.len() {
                assert(html_escaped(s)[i] == front[i]);
            } else {
                assert(html_escaped(s)[i] == back[i - front.len()]);
            }
        }
    }
}

/// Escaping maps the empty text to itself and extends character by
/// character: `&`, `<`, `>` and `"` become `&amp;`, `&lt;`, `&gt;` and
/// `&quot;`; every other character is kept.
pub proof fn lemma_html_escaped_by_character(s: Seq<char>, c: char)
    ensures
        html_escaped(Seq::<char>::empty()) == Seq::<char>::empty(),
        html_escaped(s.push(c)) == html_escaped(s) + (if c == '&' {
            seq!['&', 'a', 'm', 'p', ';']
        } else if c == '<' {
            seq!['&', 'l', 't', ';']
        } else if c == '>' {
            seq!['&', 'g', 't', ';']
        } else if c == '"' {
            seq!['&', 'q', 'u', 'o', 't', ';']
        } else {
            seq![c]
        }),
{
    assert(s.push(c).drop_last() =~= s);
}

/// The entry items list the entries in order, one link each: the link is the
/// escaped prefix, `/` and the escaped entry, and the text is the escaped entry.
pub proof fn lemma_entry_items_in_order(prefix: Seq<char>, entries: Seq<Seq<char>>, entry: Seq<char>)
    ensures
        entry_items(prefix, Seq::<Seq<char>>::empty()) == Seq::<char>::empty(),
        entry_items(prefix, entries.push(entry)) == entry_items(prefix, entries)
            + "<li><a href=\""@ + html_escaped(prefix) + "/"@ + html_escaped(entry) + "\">"@
            + html_escaped(entry) + "</a></li>"@,
{
    assert(entries.push(entry).drop_last() =~= entries);
}

/// The layout of the listing page of the directory `cur` (its components
/// relative to the served root): the escaped path, shown with a trailing `/`
/// in the title and the heading; then, unless `cur` is the root, a `..` item
/// that links to `/` followed by the first `cur.len() - 1` components; then one
/// item per entry, linked below `/` followed by `cur` (below nothing at the
/// root).
pub proof fn lemma_listing_page_layout(cur: Seq<Seq<char>>, entries: Seq<Seq<char>>)
    ensures
        listing_page(cur, entries) == "<!DOCTYPE html>"@ + "<html><head><title>HTTP File Server - "@
            + html_escaped(join_with_slash(cur)) + "/</title></head><body><h1>"@ + html_escaped(
            join_with_slash(cur),
        ) + "/</h1><ul>"@ + (if cur.len() == 0 {
            Seq::<char>::empty()
        } else {
            "<li><a href=\"/"@ + html_escaped(join_with_slash(cur.take(cur.len() - 1)))
                + "\">..</a></li>"@
        }) + entry_items(
            if cur.len() == 0 {
                Seq::<char>::empty()
            } else {
                seq!['/'] + join_with_slash(cur)
            },
            entries,
        ) + "</ul></body></html>"@,
{
    if cur.len() > 0 {
        assert(cur.take(cur.len() - 1) =~= cur.drop_last());
    }
}

} // verus!

//! Directory listing pages.

use vstd::prelude::*;

verus! {

/// What `html_escape::encode_text` does to one character.
pub open spec fn escape_text_char(c: char) -> Seq<char> {
    if c == '&' {
        "&amp;"@
    } else if c == '<' {
        "&lt;"@
    } else if c == '>' {
        "&gt;"@
    } else {
        seq![c]
    }
}

/// `html_escape::encode_text`: `&`, `<` and `>` escaped, all else kept.
pub open spec fn escape_text(s: Seq<char>) -> Seq<char>
    decreases s.len(),
{
    if s.len() == 0 {
        Seq::empty()
    } else {
        escape_text(s.drop_last()) + escape_text_char(s.last())
    }
}

/// Calls `html_escape::encode_text`, which replaces every `&`, `<` and `>`
/// by `&amp;`, `&lt;` and `&gt;` and keeps every other character (the crate
/// escapes those three bytes of the UTF-8 text and copies the rest).
#[verifier::external_body]
fn encode_text(s: &str) -> (r: String)
    ensures
        r@ == escape_text(s@),
{
    html_escape::encode_text(s).into_owned()
}

/// One list item of a page.
pub open spec fn entry_html(href: Seq<char>, label: Seq<char>) -> Seq<char> {
    "<li><a href=\""@ + escape_text(href) + "\">"@ + escape_text(label) + "</a></li>"@
}

/// A pair of strings as plain values.
pub open spec fn pair_view(p: (String, String)) -> (Seq<char>, Seq<char>) {
    (p.0@, p.1@)
}

pub open spec fn pairs_view(v: Seq<(String, String)>) -> Seq<(Seq<char>, Seq<char>)> {
    v.map_values(|p: (String, String)| pair_view(p))
}

/// The list items of `(href, label)` entries.
pub open spec fn entries_html(entries: Seq<(Seq<char>, Seq<char>)>) -> Seq<char>
    decreases entries.len(),
{
    if entries.len() == 0 {
        Seq::empty()
    } else {
        entries_html(entries.drop_last()) + entry_html(entries.last().0, entries.last().1)
    }
}

/// `directory_page`: an HTML page titled `title` listing the entries as
/// links, every text escaped.
pub open spec fn spec_directory_page(title: Seq<char>, entries: Seq<(Seq<char>, Seq<char>)>) -> Seq<
    char,
> {
    "<!DOCTYPE html><html><head><meta charset=\"utf-8\"><title>"@ + escape_text(title)
        + "</title></head><body><h1>"@ + escape_text(title) + "</h1><ul>"@ + entries_html(entries)
        + "</ul></body></html>"@
}

/// One directory listing page: `<ul>` of `<a href="...">` entries.
pub fn directory_page(title: &str, entries: &[(String, String)]) -> (r: String)
    ensures
        r@ == spec_directory_page(title@, pairs_view(entries@)),
{
    let mut out = String::from_str("<!DOCTYPE html><html><head><meta charset=\"utf-8\"><title>");
    let t = encode_text(title);
    out.append(t.as_str());
    out.append("</title></head><body><h1>");
    out.append(t.as_str());
    out.append("</h1><ul>");
    let ghost head = out@;
    let mut i: usize = 0;
    let ghost ev = pairs_view(entries@);
    assert(ev.take(0) =~= Seq::<(Seq<char>, Seq<char>)>::empty());
    while i < entries.len()
        invariant
            i <= entries@.len(),
            ev == pairs_view(entries@),
            out@ == head + entries_html(ev.take(i as int)),
        decreases entries@.len() - i,
    {
        assert(ev.take(i + 1).drop_last() =~= ev.take(i as int));
        out.append("<li><a href=\"");
        let h = encode_text(entries[i].0.as_str());
        out.append(h.as_str());
        out.append("\">");
        let l = encode_text(entries[i].1.as_str());
        out.append(l.as_str());
        out.append("</a></li>");
        assert(out@ =~= head + entries_html(ev.take(i + 1)));
        i = i + 1;
    }
    assert(ev.take(entries@.len() as int) =~= ev);
    out.append("</ul></body></html>");
    assert(out@ =~= spec_directory_page(title@, ev));
    out
}

/// Escaped text holds no `<` or `>`: a title or an entry cannot open or
/// close a tag of the page.
pub proof fn law_escaped_text_has_no_angle_brackets(s: Seq<char>)
    ensures
        forall|k: int|
            0 <= k < escape_text(s).len() ==> #[trigger] escape_text(s)[k] != '<' && escape_text(
                s,
            )[k] != '>',
    decreases s.len(),
{
    reveal_strlit("&amp;");
    reveal_strlit("&lt;");
    reveal_strlit("&gt;");
    if s.len() > 0 {
        law_escaped_text_has_no_angle_brackets(s.drop_last());
        let pre = escape_text(s.drop_last());
        let piece = escape_text_char(s.last());
        let all = escape_text(s);
        assert forall|k: int| 0 <= k < all.len() implies #[trigger] all[k] != '<' && all[k] != '>' by {
            if k < pre.len() {
                assert(all[k] == pre[k]);
            } else {
                assert(all[k] == piece[k - pre.len()]);
            }
        }
    }
}

} // verus!

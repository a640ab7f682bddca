//! Deterministic renderers over the selected evidence view.

use vstd::prelude::*;

use crate::canonical::push_str;
use crate::id::EvidenceId;
use crate::ir::{Document, Evidence, EvidenceContent, Page, Region, RegionKind};
use crate::text::{chars_of, decimal, push_char, push_decimal, trim, trim_end, trim_range, last_non_whitespace};

verus! {

/// Stable output format name.
#[derive(Debug, Clone, Copy, PartialEq, Eq)]
pub enum OutputFormat {
    /// Full evidence graph as canonical JSON.
    EvidenceJson,
    /// Selected semantic view as Markdown.
    Markdown,
    /// Selected semantic view as minimal HTML.
    Html,
}

/// The first evidence record with the ID, if any.
pub open spec fn first_evidence(evs: Seq<Evidence>, id: Seq<char>) -> Option<Evidence>
    decreases evs.len(),
{
    if evs.len() == 0 {
        None
    } else if evs[0].id@ == id {
        Some(evs[0])
    } else {
        first_evidence(evs.drop_first(), id)
    }
}

/// The text of a selected ID: the text of the first record with that ID, when it is text.
pub open spec fn selected_text_of(evs: Seq<Evidence>, id: Seq<char>) -> Option<Seq<char>> {
    match first_evidence(evs, id) {
        Some(e) => match e.content {
            EvidenceContent::Text { text } => Some(text@),
            _ => None,
        },
        None => None,
    }
}

/// The texts of the first `k` selected IDs that name text evidence, in selection order.
pub open spec fn selected_texts_upto(evs: Seq<Evidence>, ids: Seq<EvidenceId>, k: int) -> Seq<Seq<char>>
    decreases k,
{
    if k <= 0 {
        Seq::empty()
    } else {
        let prev = selected_texts_upto(evs, ids, k - 1);
        match selected_text_of(evs, ids[k - 1]@) {
            Some(t) => prev.push(t),
            None => prev,
        }
    }
}

/// The texts a region's selected view shows; none without a selection.
pub open spec fn selected_texts(r: Region) -> Seq<Seq<char>> {
    match r.selected {
        Some(sel) => selected_texts_upto(r.evidence@, sel.evidence_ids@, sel.evidence_ids@.len() as int),
        None => Seq::empty(),
    }
}

/// Texts joined with '\n' between them.
pub open spec fn join_lines(s: Seq<Seq<char>>) -> Seq<char>
    decreases s.len(),
{
    if s.len() == 0 {
        Seq::empty()
    } else if s.len() == 1 {
        s[0]
    } else {
        join_lines(s.drop_last()) + seq!['\n'] + s.last()
    }
}

/// The Markdown block of a region, with its blank-line separator; nothing when the
/// selection shows no text.
pub open spec fn markdown_region(r: Region) -> Seq<char> {
    let texts = selected_texts(r);
    if texts.len() == 0 {
        Seq::empty()
    } else {
        let text = join_lines(texts);
        let block = match r.kind {
            RegionKind::Heading => "# "@ + trim(text),
            RegionKind::ListItem => "- "@ + trim(text),
            RegionKind::Code => "```text\n"@ + trim_end(text) + "\n```"@,
            _ => trim(text),
        };
        block + "\n\n"@
    }
}

/// The Markdown of the first `k` regions of a page.
pub open spec fn markdown_regions(rs: Seq<Region>, k: int) -> Seq<char>
    decreases k,
{
    if k <= 0 {
        Seq::empty()
    } else {
        markdown_regions(rs, k - 1) + markdown_region(rs[k - 1])
    }
}

/// The Markdown of the first `k` pages, separated by horizontal rules.
pub open spec fn markdown_pages(ps: Seq<Page>, k: int) -> Seq<char>
    decreases k,
{
    if k <= 0 {
        Seq::empty()
    } else {
        markdown_pages(ps, k - 1) + (if k > 1 {
            "\n---\n\n"@
        } else {
            Seq::empty()
        }) + markdown_regions(ps[k - 1].regions@, ps[k - 1].regions@.len() as int)
    }
}

/// The Markdown of a document, with trailing whitespace replaced by one newline.
pub open spec fn markdown_text(d: Document) -> Seq<char> {
    trim_end(markdown_pages(d.pages@, d.pages@.len() as int)) + seq!['\n']
}

/// The HTML entity or character for one character.
pub open spec fn escape_char(c: char) -> Seq<char> {
    if c == '&' {
        "&amp;"@
    } else if c == '<' {
        "&lt;"@
    } else if c == '>' {
        "&gt;"@
    } else if c == '"' {
        "&quot;"@
    } else if c == '\'' {
        "&#39;"@
    } else {
        seq![c]
    }
}

/// Text with the HTML-special characters replaced by entities.
pub open spec fn escaped(s: Seq<char>) -> Seq<char>
    decreases s.len(),
{
    if s.len() == 0 {
        Seq::empty()
    } else {
        escaped(s.drop_last()) + escape_char(s.last())
    }
}

/// The HTML element of a region, with its newline; nothing when the selection shows
/// no text.
pub open spec fn html_region(r: Region) -> Seq<char> {
    let texts = selected_texts(r);
    if texts.len() == 0 {
        Seq::empty()
    } else {
        let text = escaped(join_lines(texts));
        let (open, close) = match r.kind {
            RegionKind::Heading => ("<h1>"@, "</h1>"@),
            RegionKind::Code => ("<pre><code>"@, "</code></pre>"@),
            RegionKind::ListItem => ("<li>"@, "</li>"@),
            _ => ("<p>"@, "</p>"@),
        };
        open + text + close + seq!['\n']
    }
}

/// The HTML of the first `k` regions of a page.
pub open spec fn html_regions(rs: Seq<Region>, k: int) -> Seq<char>
    decreases k,
{
    if k <= 0 {
        Seq::empty()
    } else {
        html_regions(rs, k - 1) + html_region(rs[k - 1])
    }
}

/// The HTML section of a page, numbered from one.
pub open spec fn html_page(p: Page) -> Seq<char> {
    "<section data-page=\""@ + decimal((p.index + 1) as nat) + "\">\n"@ + html_regions(
        p.regions@,
        p.regions@.len() as int,
    ) + "</section>\n"@
}

/// The HTML of the first `k` pages.
pub open spec fn html_pages(ps: Seq<Page>, k: int) -> Seq<char>
    decreases k,
{
    if k <= 0 {
        Seq::empty()
    } else {
        html_pages(ps, k - 1) + html_page(ps[k - 1])
    }
}

/// The HTML of a document.
pub open spec fn html_text(d: Document) -> Seq<char> {
    "<!doctype html>\n<html><body>\n"@ + html_pages(d.pages@, d.pages@.len() as int)
        + "</body></html>\n"@
}

/// Appends `v[from..to]`.
fn push_range(s: &mut String, v: &Vec<char>, from: usize, to: usize)
    requires
        from <= to <= v@.len(),
    ensures
        final(s)@ == old(s)@ + v@.subrange(from as int, to as int),
{
    let ghost start = s@;
    let mut i = from;
    while i < to
        invariant
            from <= i <= to <= v@.len(),
            s@ == start + v@.subrange(from as int, i as int),
        decreases to - i,
    {
        push_char(s, v[i]);
        assert(v@.subrange(from as int, i + 1) == v@.subrange(from as int, i as int).push(v@[i as int]));
        i = i + 1;
    }
}

/// The text of the first evidence record with the ID, when that record is text.
fn text_of_selected<'a>(evs: &'a Vec<Evidence>, id: &EvidenceId) -> (r: Option<&'a String>)
    ensures
        match selected_text_of(evs@, id@) {
            Some(t) => r matches Some(x) && x@ == t,
            None => r is None,
        },
{
    let mut i: usize = 0;
    assert(evs@.skip(0) == evs@);
    while i < evs.len()
        invariant
            i <= evs@.len(),
            first_evidence(evs@, id@) == first_evidence(evs@.skip(i as int), id@),
        decreases evs@.len() - i,
    {
        assert(evs@.skip(i as int)[0] == evs@[i as int]);
        assert(evs@.skip(i as int).drop_first() == evs@.skip(i + 1));
        if evs[i].id.same_as(id) {
            return match &evs[i].content {
                EvidenceContent::Text { text } => Some(text),
                _ => None,
            };
        }
        i = i + 1;
    }
    assert(evs@.skip(i as int).len() == 0);
    None
}

/// The texts a region's selected view shows, joined with '\n'; none when there are none.
fn selected_joined(region: &Region) -> (r: Option<Vec<char>>)
    ensures
        match r {
            Some(v) => selected_texts(*region).len() > 0 && v@ == join_lines(selected_texts(*region)),
            None => selected_texts(*region).len() == 0,
        },
{
    let sel = match &region.selected {
        Some(sel) => sel,
        None => return None,
    };
    let mut out: Vec<char> = Vec::new();
    let mut any = false;
    let mut k: usize = 0;
    while k < sel.evidence_ids.len()
        invariant
            region.selected == Some(*sel),
            k <= sel.evidence_ids@.len(),
            any == (selected_texts_upto(region.evidence@, sel.evidence_ids@, k as int).len() > 0),
            out@ == join_lines(selected_texts_upto(region.evidence@, sel.evidence_ids@, k as int)),
        decreases sel.evidence_ids@.len() - k,
    {
        let ghost prev = selected_texts_upto(region.evidence@, sel.evidence_ids@, k as int);
        match text_of_selected(&region.evidence, &sel.evidence_ids[k]) {
            Some(text) => {
                let v = chars_of(text.as_str());
                if any {
                    out.push('\n');
                }
                let ghost mid = out@;
                let mut i: usize = 0;
                while i < v.len()
                    invariant
                        i <= v@.len(),
                        out@ == mid + v@.take(i as int),
                    decreases v@.len() - i,
                {
                    out.push(v[i]);
                    assert(v@.take(i + 1) == v@.take(i as int).push(v@[i as int]));
                    i = i + 1;
                }
                assert(v@.take(i as int) == v@);
                proof {
                    let next = prev.push(v@);
                    assert(next.drop_last() == prev);
                    if !any {
                        assert(prev.len() == 0);
                        assert(out@ =~= join_lines(next));
                    } else {
                        assert(out@ =~= join_lines(next));
                    }
                }
                any = true;
            },
            None => {},
        }
        k = k + 1;
    }
    if !any {
        None
    } else {
        Some(out)
    }
}

/// Appends the Markdown block of a region.
fn push_markdown_region(s: &mut String, region: &Region)
    ensures
        final(s)@ == old(s)@ + markdown_region(*region),
{
    let text = match selected_joined(region) {
        Some(t) => t,
        None => {
            assert(old(s)@ + markdown_region(*region) =~= old(s)@);
            return ;
        },
    };
    proof {
        assert(text@.subrange(0, text@.len() as int) == text@);
    }
    match region.kind {
        RegionKind::Heading => {
            push_str(s, "# ");
            let (a, b) = trim_range(text.as_slice(), 0, text.len());
            push_range(s, &text, a, b);
        },
        RegionKind::ListItem => {
            push_str(s, "- ");
            let (a, b) = trim_range(text.as_slice(), 0, text.len());
            push_range(s, &text, a, b);
        },
        RegionKind::Code => {
            push_str(s, "```text\n");
            let b = last_non_whitespace(text.as_slice(), 0, text.len());
            push_range(s, &text, 0, b);
            push_str(s, "\n```");
        },
        _ => {
            let (a, b) = trim_range(text.as_slice(), 0, text.len());
            push_range(s, &text, a, b);
        },
    }
    push_str(s, "\n\n");
}

/// Renders the selected view of a document as Markdown: headings, list items, code
/// blocks, and paragraphs, pages separated by rules, ending in one newline.
pub fn render_markdown(document: &Document) -> (r: String)
    ensures
        r@ == markdown_text(*document),
{
    let mut output = String::new();
    let mut i: usize = 0;
    while i < document.pages.len()
        invariant
            i <= document.pages@.len(),
            output@ == markdown_pages(document.pages@, i as int),
        decreases document.pages@.len() - i,
    {
        let page = &document.pages[i];
        if i > 0 {
            push_str(&mut output, "\n---\n\n");
        }
        let ghost after_rule = output@;
        let mut k: usize = 0;
        while k < page.regions.len()
            invariant
                k <= page.regions@.len(),
                output@ == after_rule + markdown_regions(page.regions@, k as int),
            decreases page.regions@.len() - k,
        {
            push_markdown_region(&mut output, &page.regions[k]);
            k = k + 1;
        }
        proof {
            if i == 0 {
                assert(after_rule =~= markdown_pages(document.pages@, 0) + Seq::<char>::empty());
            }
            assert(output@ =~= markdown_pages(document.pages@, i + 1));
        }
        i = i + 1;
    }
    let v = chars_of(output.as_str());
    assert(v@.subrange(0, v@.len() as int) == v@);
    let end = last_non_whitespace(v.as_slice(), 0, v.len());
    let mut result = String::new();
    push_range(&mut result, &v, 0, end);
    push_char(&mut result, '\n');
    result
}

/// Appends the HTML form of one character.
fn push_escaped_char(s: &mut String, c: char)
    ensures
        final(s)@ == old(s)@ + escape_char(c),
{
    if c == '&' {
        push_str(s, "&amp;");
    } else if c == '<' {
        push_str(s, "&lt;");
    } else if c == '>' {
        push_str(s, "&gt;");
    } else if c == '"' {
        push_str(s, "&quot;");
    } else if c == '\'' {
        push_str(s, "&#39;");
    } else {
        push_char(s, c);
    }
}

/// Replaces the HTML-special characters `& < > " '` by entities.
pub fn escape_html(text: &str) -> (r: String)
    ensures
        r@ == escaped(text@),
{
    let v = chars_of(text);
    let mut out = String::new();
    let mut i: usize = 0;
    while i < v.len()
        invariant
            i <= v@.len(),
            out@ == escaped(v@.take(i as int)),
        decreases v@.len() - i,
    {
        push_escaped_char(&mut out, v[i]);
        assert(v@.take(i + 1).drop_last() == v@.take(i as int));
        i = i + 1;
    }
    assert(v@.take(i as int) == v@);
    out
}

/// Appends the HTML element of a region.
fn push_html_region(s: &mut String, region: &Region)
    ensures
        final(s)@ == old(s)@ + html_region(*region),
{
    let text = match selected_joined(region) {
        Some(t) => t,
        None => {
            assert(old(s)@ + html_region(*region) =~= old(s)@);
            return ;
        },
    };
    let (open, close) = match region.kind {
        RegionKind::Heading => ("<h1>", "</h1>"),
        RegionKind::Code => ("<pre><code>", "</code></pre>"),
        RegionKind::ListItem => ("<li>", "</li>"),
        _ => ("<p>", "</p>"),
    };
    push_str(s, open);
    let ghost before = s@;
    let mut i: usize = 0;
    while i < text.len()
        invariant
            i <= text@.len(),
            s@ == before + escaped(text@.take(i as int)),
        decreases text@.len() - i,
    {
        push_escaped_char(s, text[i]);
        assert(text@.take(i + 1).drop_last() == text@.take(i as int));
        i = i + 1;
    }
    assert(text@.take(i as int) == text@);
    push_str(s, close);
    push_char(s, '\n');
}

/// Renders the selected view of a document as minimal HTML, one numbered section per
/// page, with the text escaped.
pub fn render_html(document: &Document) -> (r: String)
    requires
        forall|i: int| 0 <= i < document.pages@.len() ==> (#[trigger] document.pages@[i]).index < u32::MAX,
    ensures
        r@ == html_text(*document),
{
    let mut output = String::new();
    push_str(&mut output, "<!doctype html>\n<html><body>\n");
    let ghost head = output@;
    let mut i: usize = 0;
    while i < document.pages.len()
        invariant
            i <= document.pages@.len(),
            forall|j: int| 0 <= j < document.pages@.len() ==> (#[trigger] document.pages@[j]).index < u32::MAX,
            output@ == head + html_pages(document.pages@, i as int),
        decreases document.pages@.len() - i,
    {
        let page = &document.pages[i];
        let ghost before = output@;
        push_str(&mut output, "<section data-page=\"");
        push_decimal(&mut output, (page.index + 1) as u64);
        push_str(&mut output, "\">\n");
        let ghost after_open = output@;
        let mut k: usize = 0;
        while k < page.regions.len()
            invariant
                k <= page.regions@.len(),
                output@ == after_open + html_regions(page.regions@, k as int),
            decreases page.regions@.len() - k,
        {
            push_html_region(&mut output, &page.regions[k]);
            k = k + 1;
        }
        push_str(&mut output, "</section>\n");
        proof {
            assert(output@ =~= before + html_page(*page));
        }
        i = i + 1;
    }
    push_str(&mut output, "</body></html>\n");
    output
}

/// Escaped text holds none of `< > " '`: every one of them became an entity.
pub proof fn lemma_escaped_has_no_markup(s: Seq<char>)
    ensures
        forall|i: int|
            0 <= i < escaped(s).len() ==> {
                let c = #[trigger] escaped(s)[i];
                c != '<' && c != '>' && c != '"' && c != '\''
            },
    decreases s.len(),
{
    if s.len() > 0 {
        lemma_escaped_has_no_markup(s.drop_last());
        let c = s.last();
        reveal_strlit("&amp;");
        reveal_strlit("&lt;");
        reveal_strlit("&gt;");
        reveal_strlit("&quot;");
        reveal_strlit("&#39;");
        let prev = escaped(s.drop_last());
        assert forall|i: int| 0 <= i < escaped(s).len() implies {
            let d = #[trigger] escaped(s)[i];
            d != '<' && d != '>' && d != '"' && d != '\''
        } by {
            if i >= prev.len() {
                assert(escaped(s)[i] == escape_char(c)[i - prev.len()]);
            } else {
                assert(escaped(s)[i] == prev[i]);
            }
        }
    }
}

} // verus!

//! Anchor extraction and URL resolution.
//!
//! `extract_links` walks the anchor elements of a parsed HTML document in
//! document order, resolves each `href` against a base URL, and emits one
//! `LinkInfo` per anchor whose target resolves; anchors without an `href`
//! or with an unresolvable one are skipped silently.

use crate::text::normalize_link_text;
use crate::text::normalize_spec;
use vstd::prelude::*;

verus! {

/// A hyperlink found in a document: its resolved absolute URL and its
/// whitespace-normalized visible text.
#[derive(Debug, Clone, PartialEq, Eq)]
pub struct LinkInfo {
    pub url: String,
    pub text: String,
}

/// The mathematical value of a `LinkInfo`.
pub ghost struct LinkModel {
    pub url: Seq<char>,
    pub text: Seq<char>,
}

impl View for LinkInfo {
    type V = LinkModel;

    open spec fn view(&self) -> LinkModel {
        LinkModel { url: self.url@, text: self.text@ }
    }
}

/// An anchor element as found in the document: its `href` attribute, absent
/// when the element carries none, and its raw concatenated descendant text.
pub struct Anchor {
    pub href: Option<String>,
    pub text: String,
}

impl View for Anchor {
    type V = (Option<Seq<char>>, Seq<char>);

    open spec fn view(&self) -> (Option<Seq<char>>, Seq<char>) {
        (
            match self.href {
                Some(h) => Some(h@),
                None => None,
            },
            self.text@,
        )
    }
}

/// The anchor elements of `html` under lenient HTML parsing, in document
/// order: each one's `href` attribute and raw descendant text.
pub uninterp spec fn doc_anchors(html: Seq<char>) -> Seq<(Option<Seq<char>>, Seq<char>)>;

/// The canonical serialization of `s` parsed as an absolute URL on its own,
/// or `None` where `s` does not parse as one.
pub uninterp spec fn url_parse(s: Seq<char>) -> Option<Seq<char>>;

/// The serialization of `rel` resolved against the URL `base` by the URL
/// standard's rules, or `None` where `base` does not parse as an absolute
/// URL or the resolution fails.
pub uninterp spec fn url_join(base: Seq<char>, rel: Seq<char>) -> Option<Seq<char>>;

/// Relies on scraper's `Html::parse_document` (lenient HTML5 parsing, never
/// failing), `Selector::parse` on the selector `a`, and `Html::select`,
/// whose iterator yields the matching elements in document order; on
/// `ElementRef::attr` for the `href` attribute; and on `ElementRef::text`
/// for the descendant text nodes in document order.
#[verifier::external_body]
fn parse_anchors(html: &str) -> (r: Vec<Anchor>)
    ensures
        r@.map_values(|a: Anchor| a@) == doc_anchors(html@),
{
    let document = scraper::Html::parse_document(html);
    let selector = scraper::Selector::parse("a").unwrap();
    document
        .select(&selector)
        .map(|element| Anchor {
            href: element.attr("href").map(|h| h.to_string()),
            text: element.text().collect::<String>(),
        })
        .collect()
}

/// Relies on `url::Url::parse`, which parses an absolute URL or reports an
/// error, and on `url::Url`'s `Display`, which yields the canonical
/// serialization.
#[verifier::external_body]
fn parse_absolute(s: &str) -> (r: Option<String>)
    ensures
        r matches Some(u) ==> url_parse(s@) == Some(u@),
        r is None ==> url_parse(s@) is None,
{
    match url::Url::parse(s) {
        Ok(u) => Some(u.to_string()),
        Err(_) => None,
    }
}

/// Relies on `url::Url::parse` for the base and on `url::Url::join`, which
/// resolves a relative reference against it by the URL standard's rules, and
/// on `url::Url`'s `Display` for the serialization.
#[verifier::external_body]
fn join_with_base(base: &str, rel: &str) -> (r: Option<String>)
    ensures
        r matches Some(u) ==> url_join(base@, rel@) == Some(u@),
        r is None ==> url_join(base@, rel@) is None,
{
    match url::Url::parse(base) {
        Ok(b) => match b.join(rel) {
            Ok(u) => Some(u.to_string()),
            Err(_) => None,
        },
        Err(_) => None,
    }
}

/// The target of an `href`: its own absolute parse where it has one, else
/// its resolution against `base`, else nothing.
pub open spec fn resolve_href(href: Seq<char>, base: Seq<char>) -> Option<Seq<char>> {
    if url_parse(href) is Some {
        url_parse(href)
    } else {
        url_join(base, href)
    }
}

/// The link an anchor contributes: `None` where it has no `href` or the
/// `href` resolves neither on its own nor against `base`.
pub open spec fn anchor_link(a: (Option<Seq<char>>, Seq<char>), base: Seq<char>) -> Option<
    LinkModel,
> {
    match a.0 {
        Some(href) => match resolve_href(href, base) {
            Some(u) => Some(LinkModel { url: u, text: normalize_spec(a.1) }),
            None => None,
        },
        None => None,
    }
}

/// The links contributed by `anchors`, in order, anchors without a
/// resolvable target skipped.
pub open spec fn links_of(
    anchors: Seq<(Option<Seq<char>>, Seq<char>)>,
    base: Seq<char>,
) -> Seq<LinkModel>
    decreases anchors.len(),
{
    if anchors.len() == 0 {
        Seq::empty()
    } else {
        let rest = links_of(anchors.drop_last(), base);
        match anchor_link(anchors.last(), base) {
            Some(l) => rest.push(l),
            None => rest,
        }
    }
}

/// The links of the document `html` resolved against `base`.
pub open spec fn extract_links_spec(html: Seq<char>, base: Seq<char>) -> Seq<LinkModel> {
    links_of(doc_anchors(html), base)
}

/// Extracts the hyperlinks of `html` in document order: one `LinkInfo` per
/// anchor element whose `href` parses as an absolute URL or resolves against
/// `base`, holding the resolved URL's canonical serialization and the
/// anchor's normalized text. Anchors without an `href`, or with one that
/// resolves neither way, contribute nothing.
pub fn extract_links(html: &str, base: &str) -> (links: Vec<LinkInfo>)
    ensures
        links@.map_values(|l: LinkInfo| l@) == extract_links_spec(html@, base@),
{
    let anchors = parse_anchors(html);
    let ghost doc = doc_anchors(html@);
    let mut links: Vec<LinkInfo> = Vec::new();
    let mut i: usize = 0;
    while i < anchors.len()
        invariant
            anchors@.map_values(|a: Anchor| a@) == doc,
            doc == doc_anchors(html@),
            i <= anchors.len(),
            links@.map_values(|l: LinkInfo| l@) == links_of(doc.take(i as int), base@),
        decreases anchors.len() - i,
    {
        let a = &anchors[i];
        proof {
            assert(doc[i as int] == a@);
            assert(doc.take(i + 1).drop_last() =~= doc.take(i as int));
            assert(doc.take(i + 1).last() == doc[i as int]);
        }
        if let Some(href) = &a.href {
            let resolved = match parse_absolute(href.as_str()) {
                Some(u) => Some(u),
                None => join_with_base(base, href.as_str()),
            };
            if let Some(u) = resolved {
                let text = normalize_link_text(a.text.as_str());
                let link = LinkInfo { url: u, text };
                proof {
                    assert(anchor_link(a@, base@) == Some(link@));
                    assert(links@.map_values(|l: LinkInfo| l@).push(link@) =~= links@.push(
                        link,
                    ).map_values(|l: LinkInfo| l@));
                }
                links.push(link);
            }
        }
        i = i + 1;
    }
    proof {
        assert(doc.take(anchors@.len() as int) =~= doc);
    }
    links
}

/// An anchor with an `href` that parses as an absolute URL on its own yields
/// that URL's canonical serialization, whatever the base.
pub proof fn lemma_absolute_href_ignores_base(href: Seq<char>, base1: Seq<char>, base2: Seq<char>)
    requires
        url_parse(href) is Some,
    ensures
        resolve_href(href, base1) == url_parse(href),
        resolve_href(href, base1) == resolve_href(href, base2),
{
}

/// An anchor with an `href` that does not parse as absolute yields exactly
/// the resolution of that `href` against the base.
pub proof fn lemma_relative_href_resolves_against_base(href: Seq<char>, base: Seq<char>)
    requires
        url_parse(href) is None,
    ensures
        resolve_href(href, base) == url_join(base, href),
{
}

/// An anchor that contributes no link leaves the extracted sequence exactly
/// as it would be without that anchor: extraction goes on past it.
proof fn lemma_skipped_anchor(
    anchors: Seq<(Option<Seq<char>>, Seq<char>)>,
    base: Seq<char>,
    i: int,
)
    requires
        0 <= i < anchors.len(),
        anchor_link(anchors[i], base) is None,
    ensures
        links_of(anchors, base) == links_of(anchors.remove(i), base),
    decreases anchors.len(),
{
    if i == anchors.len() - 1 {
        assert(anchors.remove(i) =~= anchors.drop_last());
    } else {
        lemma_skipped_anchor(anchors.drop_last(), base, i);
        assert(anchors.remove(i).drop_last() =~= anchors.drop_last().remove(i));
        assert(anchors.remove(i).last() == anchors.last());
    }
}

/// An anchor lacking an `href` attribute contributes no link: the result is
/// that of the other anchors alone.
pub proof fn lemma_no_href_no_link(
    anchors: Seq<(Option<Seq<char>>, Seq<char>)>,
    base: Seq<char>,
    i: int,
)
    requires
        0 <= i < anchors.len(),
        anchors[i].0 is None,
    ensures
        links_of(anchors, base) == links_of(anchors.remove(i), base),
{
    lemma_skipped_anchor(anchors, base, i);
}

/// An anchor whose `href` neither parses as absolute nor resolves against
/// the base contributes no link, and the other anchors are extracted as if
/// it were not there.
pub proof fn lemma_unresolvable_href_skipped(
    anchors: Seq<(Option<Seq<char>>, Seq<char>)>,
    base: Seq<char>,
    i: int,
    href: Seq<char>,
)
    requires
        0 <= i < anchors.len(),
        anchors[i].0 == Some(href),
        url_parse(href) is None,
        url_join(base, href) is None,
    ensures
        links_of(anchors, base) == links_of(anchors.remove(i), base),
{
    lemma_skipped_anchor(anchors, base, i);
}

/// Order preservation: where every anchor has a resolvable target, the
/// result has one link per anchor, in document order.
pub proof fn lemma_order_preserved(anchors: Seq<(Option<Seq<char>>, Seq<char>)>, base: Seq<char>)
    requires
        forall|i: int| 0 <= i < anchors.len() ==> anchor_link(#[trigger] anchors[i], base) is Some,
    ensures
        links_of(anchors, base).len() == anchors.len(),
        forall|i: int|
            0 <= i < anchors.len() ==> Some(#[trigger] links_of(anchors, base)[i]) == anchor_link(
                anchors[i],
                base,
            ),
    decreases anchors.len(),
{
    if anchors.len() == 0 {
    } else {
        assert forall|i: int| 0 <= i < anchors.drop_last().len() implies anchor_link(
            #[trigger] anchors.drop_last()[i],
            base,
        ) is Some by {
            assert(anchors.drop_last()[i] == anchors[i]);
        }
        lemma_order_preserved(anchors.drop_last(), base);
        assert(anchor_link(anchors.last(), base) is Some);
    }
}

} // verus!

use vstd::prelude::*;

verus! {

/// Whether a selector string is accepted by the CSS selector grammar.
pub uninterp spec fn sel_ok(sel: Seq<char>) -> bool;

/// The inner serialized content of the first element of `doc` matched by
/// `sel`, or `None` when no element matches.
pub uninterp spec fn text_found(doc: Seq<char>, sel: Seq<char>) -> Option<Seq<char>>;

/// The value of attribute `attr` on the first element of `doc` matched by
/// `sel`: `None` when no element matches, `Some(None)` when one matches but
/// carries no such attribute.
pub uninterp spec fn attr_found(doc: Seq<char>, sel: Seq<char>, attr: Seq<char>) -> Option<
    Option<Seq<char>>,
>;

/// The serialized origin of a URL string, or `None` when the string is not a
/// valid URL.
pub uninterp spec fn origin_of(url: Seq<char>) -> Option<Seq<char>>;

pub open spec fn opt_str_view(r: Option<String>) -> Option<Seq<char>> {
    match r {
        Option::Some(s) => Option::Some(s@),
        Option::None => Option::None,
    }
}

pub open spec fn opt_opt_str_view(r: Option<Option<String>>) -> Option<Option<Seq<char>>> {
    match r {
        Option::Some(inner) => Option::Some(opt_str_view(inner)),
        Option::None => Option::None,
    }
}

/// Relies on scraper::Selector::parse: parsing a selector string is a
/// deterministic function of the string, and succeeds exactly when the string
/// is a well-formed selector.
#[verifier::external_body]
pub(crate) fn selector_is_valid(sel: &str) -> (r: bool)
    ensures
        r == sel_ok(sel@),
{
    scraper::Selector::parse(sel).is_ok()
}

/// Relies on scraper::Html::parse_document, scraper::Selector::parse,
/// scraper::Html::select and scraper::ElementRef::inner_html: parsing and
/// selection are deterministic, select walks the node tree in document order,
/// and inner_html serializes the children of the first matched element.
#[verifier::external_body]
pub(crate) fn scrape_text(doc: &str, sel: &str) -> (r: Option<String>)
    requires
        sel_ok(sel@),
    ensures
        opt_str_view(r) == text_found(doc@, sel@),
{
    let selector = match scraper::Selector::parse(sel) {
        Ok(s) => s,
        Err(_) => return None,
    };
    let tree = scraper::Html::parse_document(doc);
    tree.select(&selector).next().map(|el| el.inner_html())
}

/// Relies on scraper::Html::parse_document, scraper::Selector::parse,
/// scraper::Html::select and scraper::ElementRef::attr: parsing and selection
/// are deterministic, and attr returns the value of the named attribute of
/// the first matched element when the element carries it.
#[verifier::external_body]
pub(crate) fn scrape_attr(doc: &str, sel: &str, attr: &str) -> (r: Option<Option<String>>)
    requires
        sel_ok(sel@),
    ensures
        opt_opt_str_view(r) == attr_found(doc@, sel@, attr@),
{
    let selector = match scraper::Selector::parse(sel) {
        Ok(s) => s,
        Err(_) => return None,
    };
    let tree = scraper::Html::parse_document(doc);
    tree.select(&selector).next().map(|el| el.attr(attr).map(|v| v.to_string()))
}

/// Relies on reqwest::Url::parse and url::Origin::unicode_serialization:
/// both are deterministic functions of the URL string.
#[verifier::external_body]
pub(crate) fn url_origin(url: &str) -> (r: Option<String>)
    ensures
        opt_str_view(r) == origin_of(url@),
{
    match reqwest::Url::parse(url) {
        Ok(u) => Some(u.origin().unicode_serialization()),
        Err(_) => None,
    }
}

}

//! The details of a lot, read from its page.
use vstd::prelude::*;

use crate::cleaning::{clean_detail_lines, cleaned_lines, law_cleaned_lines_are_distinct};
use crate::fields::{
    is_image_url, law_with_line_keeps_lines_distinct, links_picture, push_unique_line, with_line,
};
use crate::links::{join_url, joined_url, BASE_URL};
use crate::listing::{
    attribute_names, link_texts, DetailLink, DetailsText, Fault, ListingError, LotDetails, HREF,
};
use crate::markup::{
    all_shaped, borrowed_texts, element_texts, find_in_page, found_texts, has_shape, page_found,
    text_from_node, text_of, Element, ElementText, Found, FoundText,
};
use crate::text::texts;

verus! {

/// The photos that a gallery's links lead to, each once: a link without an address, or to
/// something else than a picture, is passed over.
pub open spec fn photos_of(links: Seq<FoundText>) -> Result<Seq<Seq<char>>, Fault>
    decreases links.len(),
{
    if links.len() == 0 {
        Ok(seq![])
    } else {
        match photos_of(links.drop_last()) {
            Err(fault) => Err(fault),
            Ok(photos) => match links.last().element.attributes[HREF as int] {
                None => Ok(photos),
                Some(href) => if !links_picture(href) {
                    Ok(photos)
                } else {
                    match joined_url(BASE_URL@, href) {
                        Err(words) => Err(Fault::Link(words)),
                        Ok(url) => Ok(with_line(photos, url)),
                    }
                },
            },
        }
    }
}

/// The lines of text of elements that are not empty, each once, after others.
pub open spec fn lines_of(before: Seq<Seq<char>>, elements: Seq<ElementText>) -> Seq<Seq<char>>
    decreases elements.len(),
{
    if elements.len() == 0 {
        before
    } else {
        let lines = lines_of(before, elements.drop_last());
        let line = text_of(elements.last());
        if line.len() > 0 {
            with_line(lines, line)
        } else {
            lines
        }
    }
}

/// The lines that a page holds on a lot: those of the bid, then those of the listing's rows.
pub open spec fn info_of(bids: Seq<FoundText>, listings: Seq<FoundText>) -> Seq<Seq<char>> {
    let first = lines_of(seq![], bids.map_values(|f: FoundText| f.element));
    if listings.len() == 0 {
        first
    } else {
        lines_of(first, listings[0].inner[0])
    }
}

/// A list of documents holds an address.
pub open spec fn has_address(documents: Seq<(Seq<char>, Seq<char>)>, url: Seq<char>) -> bool {
    exists|i: int| 0 <= i < documents.len() && (#[trigger] documents[i]).1 == url
}

/// The label of a document's link.
pub open spec fn label_of(link: ElementText) -> Seq<char> {
    if text_of(link).len() == 0 {
        "Document"@
    } else {
        text_of(link)
    }
}

/// The documents that links lead to, each address once, under its first label.
pub open spec fn documents_of(links: Seq<FoundText>) -> Result<Seq<(Seq<char>, Seq<char>)>, Fault>
    decreases links.len(),
{
    if links.len() == 0 {
        Ok(seq![])
    } else {
        match documents_of(links.drop_last()) {
            Err(fault) => Err(fault),
            Ok(documents) => match links.last().element.attributes[HREF as int] {
                None => Ok(documents),
                Some(href) => match joined_url(BASE_URL@, href) {
                    Err(words) => Err(Fault::Link(words)),
                    Ok(url) => if has_address(documents, url) {
                        Ok(documents)
                    } else {
                        Ok(documents.push((label_of(links.last().element), url)))
                    },
                },
            },
        }
    }
}

/// The details of a lot, by the elements of its page.
pub open spec fn details_of(
    gallery: Seq<FoundText>,
    bids: Seq<FoundText>,
    listings: Seq<FoundText>,
    links: Seq<FoundText>,
) -> Result<DetailsText, Fault> {
    match photos_of(gallery) {
        Err(fault) => Err(fault),
        Ok(photos) => match documents_of(links) {
            Err(fault) => Err(fault),
            Ok(documents) => Ok(
                DetailsText { photos, info_lines: cleaned_lines(info_of(bids, listings)), documents },
            ),
        },
    }
}

/// The outcome of reading a lot's details.
pub open spec fn details_outcome(r: Result<LotDetails, ListingError>) -> Result<DetailsText, Fault> {
    match r {
        Ok(details) => Ok(details@),
        Err(e) => Err(e@),
    }
}

/// A fault among the first links spoils the gallery.
proof fn lemma_photo_fault_spoils(links: Seq<FoundText>, n: int)
    requires
        0 <= n <= links.len(),
        photos_of(links.take(n)) is Err,
    ensures
        photos_of(links) == photos_of(links.take(n)),
    decreases links.len() - n,
{
    if n < links.len() {
        assert(links.take(n + 1).drop_last() =~= links.take(n));
        lemma_photo_fault_spoils(links, n + 1);
    } else {
        assert(links.take(n) =~= links);
    }
}

/// A fault among the first links spoils the documents.
proof fn lemma_document_fault_spoils(links: Seq<FoundText>, n: int)
    requires
        0 <= n <= links.len(),
        documents_of(links.take(n)) is Err,
    ensures
        documents_of(links) == documents_of(links.take(n)),
    decreases links.len() - n,
{
    if n < links.len() {
        assert(links.take(n + 1).drop_last() =~= links.take(n));
        lemma_document_fault_spoils(links, n + 1);
    } else {
        assert(links.take(n) =~= links);
    }
}

/// Reads the photos that a gallery's links lead to.
pub fn read_photos(links: &Vec<Found>) -> (r: Result<Vec<String>, ListingError>)
    requires
        all_shaped(links@, 0, 4),
    ensures
        match r {
            Ok(photos) => photos_of(found_texts(links@)) == Ok::<_, Fault>(texts(photos@)),
            Err(e) => photos_of(found_texts(links@)) == Err::<Seq<Seq<char>>, _>(e@),
        },
{
    let mut photos: Vec<String> = Vec::new();
    let mut i: usize = 0;
    let ghost all = found_texts(links@);
    assert(texts(photos@) =~= seq![]);
    while i < links.len()
        invariant
            i <= links@.len(),
            all == found_texts(links@),
            all_shaped(links@, 0, 4),
            photos_of(all.take(i as int)) == Ok::<_, Fault>(texts(photos@)),
        decreases links@.len() - i,
    {
        let link: &Found = &links[i];
        proof {
            let next = all.take(i as int + 1);
            assert(next.drop_last() =~= all.take(i as int));
            assert(next.last() == link@);
            assert(has_shape(link@, 0, 4));
        }
        match &link.element.attributes[HREF] {
            Some(href) => {
                if is_image_url(href.as_str()) {
                    match join_url(BASE_URL, href.as_str()) {
                        Ok(url) => push_unique_line(&mut photos, url),
                        Err(words) => {
                            proof {
                                lemma_photo_fault_spoils(all, i as int + 1);
                            }
                            return Err(ListingError::Link(words));
                        },
                    }
                }
            },
            None => {},
        }
        i += 1;
    }
    assert(all.take(i as int) =~= all);
    Ok(photos)
}

/// Adds the text of an element to lines, unless it is empty or stands there already.
fn add_line(lines: &mut Vec<String>, element: &Element)
    ensures
        texts(final(lines)@) == if text_of(element@).len() > 0 {
            with_line(texts(old(lines)@), text_of(element@))
        } else {
            texts(old(lines)@)
        },
{
    let line = text_from_node(element);
    if !line.as_str().is_empty() {
        push_unique_line(lines, line);
    }
}

/// Reads the lines that a page holds on a lot.
pub fn read_info(bids: &Vec<Found>, listings: &Vec<Found>) -> (r: Vec<String>)
    requires
        all_shaped(listings@, 1, 4),
    ensures
        texts(r@) == info_of(found_texts(bids@), found_texts(listings@)),
{
    let mut lines: Vec<String> = Vec::new();
    let ghost paragraphs = found_texts(bids@).map_values(|f: FoundText| f.element);
    let mut i: usize = 0;
    assert(texts(lines@) =~= lines_of(seq![], paragraphs.take(0)));
    while i < bids.len()
        invariant
            i <= bids@.len(),
            paragraphs == found_texts(bids@).map_values(|f: FoundText| f.element),
            texts(lines@) == lines_of(seq![], paragraphs.take(i as int)),
        decreases bids@.len() - i,
    {
        proof {
            let next = paragraphs.take(i as int + 1);
            assert(next.drop_last() =~= paragraphs.take(i as int));
            assert(next.last() == bids@[i as int].element@);
        }
        add_line(&mut lines, &bids[i].element);
        i += 1;
    }
    assert(paragraphs.take(i as int) =~= paragraphs);
    if listings.len() == 0 {
        return lines;
    }
    let ghost first = texts(lines@);
    assert(has_shape(listings@[0]@, 1, 4));
    assert(found_texts(listings@)[0] == listings@[0]@);
    let rows: &Vec<Element> = &listings[0].inner[0];
    let ghost all = element_texts(rows@);
    assert(listings@[0]@.inner[0] == all);
    let mut k: usize = 0;
    assert(all.take(0) =~= seq![]);
    while k < rows.len()
        invariant
            k <= rows@.len(),
            all == element_texts(rows@),
            texts(lines@) == lines_of(first, all.take(k as int)),
        decreases rows@.len() - k,
    {
        proof {
            let next = all.take(k as int + 1);
            assert(next.drop_last() =~= all.take(k as int));
            assert(next.last() == rows@[k as int]@);
        }
        add_line(&mut lines, &rows[k]);
        k += 1;
    }
    assert(all.take(k as int) =~= all);
    lines
}

/// Whether a list of documents holds an address.
fn holds_address(documents: &Vec<DetailLink>, url: &String) -> (r: bool)
    ensures
        r == has_address(link_texts(documents@), url@),
{
    let mut i: usize = 0;
    let ghost all = link_texts(documents@);
    while i < documents.len()
        invariant
            i <= documents@.len(),
            all == link_texts(documents@),
            forall|k: int| 0 <= k < i ==> (#[trigger] all[k]).1 != url@,
        decreases documents@.len() - i,
    {
        assert(all[i as int].1 == documents@[i as int].url@);
        if documents[i].url == *url {
            return true;
        }
        i += 1;
    }
    false
}

/// Reads the documents that links lead to.
pub fn read_documents(links: &Vec<Found>) -> (r: Result<Vec<DetailLink>, ListingError>)
    requires
        all_shaped(links@, 0, 4),
    ensures
        match r {
            Ok(documents) => documents_of(found_texts(links@)) == Ok::<_, Fault>(
                link_texts(documents@),
            ),
            Err(e) => documents_of(found_texts(links@)) == Err::<Seq<(Seq<char>, Seq<char>)>, _>(
                e@,
            ),
        },
{
    let mut documents: Vec<DetailLink> = Vec::new();
    let mut i: usize = 0;
    let ghost all = found_texts(links@);
    assert(link_texts(documents@) =~= seq![]);
    while i < links.len()
        invariant
            i <= links@.len(),
            all == found_texts(links@),
            all_shaped(links@, 0, 4),
            documents_of(all.take(i as int)) == Ok::<_, Fault>(link_texts(documents@)),
        decreases links@.len() - i,
    {
        let link: &Found = &links[i];
        proof {
            let next = all.take(i as int + 1);
            assert(next.drop_last() =~= all.take(i as int));
            assert(next.last() == link@);
            assert(has_shape(link@, 0, 4));
        }
        match &link.element.attributes[HREF] {
            Some(href) => match join_url(BASE_URL, href.as_str()) {
                Ok(url) => {
                    let text = text_from_node(&link.element);
                    let label: String = if text.as_str().is_empty() {
                        "Document".to_owned()
                    } else {
                        text
                    };
                    if !holds_address(&documents, &url) {
                        let document = DetailLink { label, url };
                        assert(link_texts(documents@.push(document)) =~= link_texts(
                            documents@,
                        ).push((document.label@, document.url@)));
                        documents.push(document);
                    }
                },
                Err(words) => {
                    proof {
                        lemma_document_fault_spoils(all, i as int + 1);
                    }
                    return Err(ListingError::Link(words));
                },
            },
            None => {},
        }
        i += 1;
    }
    assert(all.take(i as int) =~= all);
    Ok(documents)
}

/// Reads the details of a lot from the elements of its page: the links of its gallery, the
/// paragraphs of its bid, its listing with the rows in it, and the links to its documents.
pub fn details_from_items(
    gallery: &Vec<Found>,
    bids: &Vec<Found>,
    listings: &Vec<Found>,
    links: &Vec<Found>,
) -> (r: Result<LotDetails, ListingError>)
    requires
        all_shaped(gallery@, 0, 4),
        all_shaped(bids@, 0, 4),
        all_shaped(listings@, 1, 4),
        all_shaped(links@, 0, 4),
    ensures
        details_outcome(r) == details_of(
            found_texts(gallery@),
            found_texts(bids@),
            found_texts(listings@),
            found_texts(links@),
        ),
{
    let photos = match read_photos(gallery) {
        Ok(photos) => photos,
        Err(e) => return Err(e),
    };
    let lines = read_info(bids, listings);
    let documents = match read_documents(links) {
        Ok(documents) => documents,
        Err(e) => return Err(e),
    };
    let info_lines = clean_detail_lines(&lines);
    Ok(LotDetails { photos, info_lines, documents })
}

/// The details of a lot on its page.
pub open spec fn page_details(page: Seq<char>) -> Result<DetailsText, Fault> {
    match (
        page_found(page, true, "a[data-fancybox=\"gallery\"]"@, seq![], attribute_names()),
        page_found(page, true, ".bid-details p"@, seq![], attribute_names()),
        page_found(page, true, "#listing-details"@, seq!["tr"@], attribute_names()),
        page_found(page, true, ".documents-wrap a[href]"@, seq![], attribute_names()),
    ) {
        (Ok(gallery), Ok(bids), Ok(listings), Ok(links)) => details_of(
            gallery,
            bids,
            listings,
            links,
        ),
        (Err(selector), _, _, _) => Err(Fault::Selector(selector)),
        (_, Err(selector), _, _) => Err(Fault::Selector(selector)),
        (_, _, Err(selector), _) => Err(Fault::Selector(selector)),
        (_, _, _, Err(selector)) => Err(Fault::Selector(selector)),
    }
}

/// Reads the details of a lot from its page.
pub fn parse_lot_details(html: &str) -> (r: Result<LotDetails, ListingError>)
    ensures
        details_outcome(r) == page_details(html@),
{
    let none: [&str; 0] = [];
    let rows: [&str; 1] = ["tr"];
    let names: [&str; 4] = ["href", "src", "data-src", "value"];
    assert(borrowed_texts(none@) =~= seq![]);
    assert(borrowed_texts(rows@) =~= seq!["tr"@]);
    assert(borrowed_texts(names@) =~= attribute_names());
    let gallery = find_in_page(html, true, "a[data-fancybox=\"gallery\"]", &none, &names);
    let bids = find_in_page(html, true, ".bid-details p", &none, &names);
    let listings = find_in_page(html, true, "#listing-details", &rows, &names);
    let links = find_in_page(html, true, ".documents-wrap a[href]", &none, &names);
    match (gallery, bids, listings, links) {
        (Ok(gallery), Ok(bids), Ok(listings), Ok(links)) => details_from_items(
            &gallery,
            &bids,
            &listings,
            &links,
        ),
        (Err(selector), _, _, _) => Err(ListingError::Selector(selector)),
        (_, Err(selector), _, _) => Err(ListingError::Selector(selector)),
        (_, _, Err(selector), _) => Err(ListingError::Selector(selector)),
        (_, _, _, Err(selector)) => Err(ListingError::Selector(selector)),
    }
}

/// The details of a lot with its lines cleaned.
pub fn clean_lot_details(details: LotDetails) -> (r: LotDetails)
    ensures
        r.photos == details.photos,
        r.documents == details.documents,
        texts(r.info_lines@) == cleaned_lines(texts(details.info_lines@)),
{
    let info_lines = clean_detail_lines(&details.info_lines);
    LotDetails { photos: details.photos, info_lines, documents: details.documents }
}

/// The photos of a lot are all different, and so are the addresses of its documents and the
/// lines on it; no line is empty.
pub proof fn law_details_are_distinct(
    gallery: Seq<FoundText>,
    bids: Seq<FoundText>,
    listings: Seq<FoundText>,
    links: Seq<FoundText>,
)
    ensures
        details_of(gallery, bids, listings, links) matches Ok(details) ==> {
            &&& details.photos.no_duplicates()
            &&& details.info_lines.no_duplicates()
            &&& forall|i: int|
                0 <= i < details.info_lines.len() ==> (#[trigger] details.info_lines[i]).len() > 0
            &&& forall|i: int, k: int|
                0 <= i < k < details.documents.len() ==> details.documents[i].1
                    != details.documents[k].1
        },
{
    lemma_photos_distinct(gallery);
    lemma_documents_distinct(links);
    law_cleaned_lines_are_distinct(info_of(bids, listings));
}

proof fn lemma_photos_distinct(links: Seq<FoundText>)
    ensures
        photos_of(links) matches Ok(photos) ==> photos.no_duplicates(),
    decreases links.len(),
{
    if links.len() > 0 {
        lemma_photos_distinct(links.drop_last());
        match (photos_of(links.drop_last()), photos_of(links)) {
            (Ok(before), Ok(photos)) => {
                match links.last().element.attributes[HREF as int] {
                    Some(href) => match joined_url(BASE_URL@, href) {
                        Ok(url) => law_with_line_keeps_lines_distinct(before, url),
                        Err(_) => {},
                    },
                    None => {},
                }
            },
            _ => {},
        }
    }
}

proof fn lemma_documents_distinct(links: Seq<FoundText>)
    ensures
        documents_of(links) matches Ok(documents) ==> forall|i: int, k: int|
            0 <= i < k < documents.len() ==> documents[i].1 != documents[k].1,
    decreases links.len(),
{
    if links.len() > 0 {
        lemma_documents_distinct(links.drop_last());
    }
}

/// The photos of a lot are the pictures that the links of its gallery lead to: every one of them,
/// and no other; and further links add theirs behind.
pub proof fn law_photos_are_the_pictures_of_the_gallery(
    links: Seq<FoundText>,
    photos: Seq<Seq<char>>,
    url: Seq<char>,
)
    requires
        photos_of(links) == Ok::<_, Fault>(photos),
    ensures
        photos.contains(url) <==> exists|i: int|
            0 <= i < links.len() && leads_to(#[trigger] links[i], url) && links_picture(
                links[i].element.attributes[0]->0,
            ),
        links.len() > 0 ==> (photos_of(links.drop_last()) matches Ok(before)
            && before.is_prefix_of(photos)),
    decreases links.len(),
{
    if links.len() > 0 {
        let rest = links.drop_last();
        let before = photos_of(rest)->Ok_0;
        law_photos_are_the_pictures_of_the_gallery(rest, before, url);
        assert(before =~= photos.take(before.len() as int));
        if photos.contains(url) {
            if before.contains(url) {
                let i = choose|i: int|
                    0 <= i < rest.len() && leads_to(#[trigger] rest[i], url) && links_picture(
                        rest[i].element.attributes[0]->0,
                    );
                assert(links[i] == rest[i]);
            } else {
                assert(leads_to(links[links.len() - 1], url));
            }
        }
        if exists|i: int|
            0 <= i < links.len() && leads_to(#[trigger] links[i], url) && links_picture(
                links[i].element.attributes[0]->0,
            ) {
            let i = choose|i: int|
                0 <= i < links.len() && leads_to(#[trigger] links[i], url) && links_picture(
                    links[i].element.attributes[0]->0,
                );
            if i < rest.len() {
                assert(leads_to(rest[i], url));
                assert(before.contains(url));
                let j = choose|j: int| 0 <= j < before.len() && before[j] == url;
                assert(photos[j] == url);
            } else if before.contains(url) {
                let j = choose|j: int| 0 <= j < before.len() && before[j] == url;
                assert(photos[j] == url);
            } else {
                assert(photos[photos.len() - 1] == url);
            }
        }
    }
}

/// A link has an address that leads to another on the pages of the auction house.
pub open spec fn leads_to(link: FoundText, url: Seq<char>) -> bool {
    link.element.attributes[0] matches Some(href) && joined_url(
        "https://www.mcdougallauction.com/"@,
        href,
    ) == Ok::<_, Seq<char>>(url)
}

/// The documents of a lot are those that its links lead to: each address once, under the text of
/// the first link that leads to it, or a word for it where that has no text.
pub proof fn law_documents_are_those_of_the_links(
    links: Seq<FoundText>,
    documents: Seq<(Seq<char>, Seq<char>)>,
    url: Seq<char>,
)
    requires
        documents_of(links) == Ok::<_, Fault>(documents),
    ensures
        (exists|i: int| 0 <= i < links.len() && leads_to(#[trigger] links[i], url)) <==> (exists|
            k: int,
        |
            0 <= k < documents.len() && (#[trigger] documents[k]).1 == url),
        forall|k: int|
            0 <= k < documents.len() && (#[trigger] documents[k]).1 == url ==> exists|i: int| {
                &&& 0 <= i < links.len()
                &&& leads_to(#[trigger] links[i], url)
                &&& forall|j: int| 0 <= j < i ==> !leads_to(#[trigger] links[j], url)
                &&& documents[k].0 == if text_of(links[i].element).len() == 0 {
                    "Document"@
                } else {
                    text_of(links[i].element)
                }
            },
    decreases links.len(),
{
    if links.len() > 0 {
        let rest = links.drop_last();
        let last = links.len() - 1;
        let before = documents_of(rest)->Ok_0;
        law_documents_are_those_of_the_links(rest, before, url);
        let was = exists|i: int| 0 <= i < rest.len() && leads_to(#[trigger] rest[i], url);
        if was {
            let i = choose|i: int| 0 <= i < rest.len() && leads_to(#[trigger] rest[i], url);
            assert(leads_to(links[i], url));
            let k = choose|k: int| 0 <= k < before.len() && (#[trigger] before[k]).1 == url;
            assert(documents[k] == before[k]);
        }
        if exists|i: int| 0 <= i < links.len() && leads_to(#[trigger] links[i], url) {
            let i = choose|i: int| 0 <= i < links.len() && leads_to(#[trigger] links[i], url);
            if i < last {
                assert(leads_to(rest[i], url));
            }
            assert(was || leads_to(links[last], url));
        }
        if leads_to(links[last], url) && !was {
            assert(!has_address(before, url));
            assert(documents[documents.len() - 1].1 == url);
        }
        if exists|k: int| 0 <= k < documents.len() && (#[trigger] documents[k]).1 == url {
            let k = choose|k: int| 0 <= k < documents.len() && (#[trigger] documents[k]).1 == url;
            if k < before.len() {
                assert(before[k].1 == url);
                assert(was);
            } else {
                assert(leads_to(links[last], url));
            }
        }
        assert forall|k: int|
            0 <= k < documents.len() && (#[trigger] documents[k]).1 == url implies exists|i: int| {
            &&& 0 <= i < links.len()
            &&& leads_to(#[trigger] links[i], url)
            &&& forall|j: int| 0 <= j < i ==> !leads_to(#[trigger] links[j], url)
            &&& documents[k].0 == if text_of(links[i].element).len() == 0 {
                "Document"@
            } else {
                text_of(links[i].element)
            }
        } by {
            if k < before.len() {
                assert(before[k] == documents[k]);
                let i = choose|i: int| {
                    &&& 0 <= i < rest.len()
                    &&& leads_to(#[trigger] rest[i], url)
                    &&& forall|j: int| 0 <= j < i ==> !leads_to(#[trigger] rest[j], url)
                    &&& before[k].0 == if text_of(rest[i].element).len() == 0 {
                        "Document"@
                    } else {
                        text_of(rest[i].element)
                    }
                };
                assert(links[i] == rest[i]);
                assert forall|j: int| 0 <= j < i implies !leads_to(#[trigger] links[j], url) by {
                    assert(links[j] == rest[j]);
                }
            } else {
                assert(leads_to(links[last], url));
                assert forall|j: int| 0 <= j < last implies !leads_to(#[trigger] links[j], url) by {
                    assert(rest[j] == links[j]);
                }
            }
        }
    }
}

/// The lines that a page holds on a lot are the texts of the paragraphs of its bid and of the rows
/// of its listing: each that is not empty, and no other.
pub proof fn law_info_is_the_text_of_bid_and_rows(
    bids: Seq<FoundText>,
    listings: Seq<FoundText>,
    line: Seq<char>,
)
    ensures
        info_of(bids, listings).contains(line) <==> line.len() > 0 && ((exists|i: int|
            0 <= i < bids.len() && text_of((#[trigger] bids[i]).element) == line) || (
        listings.len() > 0 && exists|k: int|
            0 <= k < listings[0].inner[0].len() && text_of(#[trigger] listings[0].inner[0][k])
                == line)),
{
    let own = bids.map_values(|f: FoundText| f.element);
    let first = lines_of(seq![], own);
    lemma_lines_of(seq![], own, line);
    if first.contains(line) {
        let i = choose|i: int| 0 <= i < own.len() && text_of(#[trigger] own[i]) == line;
        assert(text_of(bids[i].element) == line);
    }
    if exists|i: int| 0 <= i < bids.len() && text_of((#[trigger] bids[i]).element) == line {
        let i = choose|i: int| 0 <= i < bids.len() && text_of((#[trigger] bids[i]).element) == line;
        assert(text_of(own[i]) == line);
    }
    if listings.len() > 0 {
        lemma_lines_of(first, listings[0].inner[0], line);
    }
}

/// The lines of some elements hold those before and the texts that are not empty.
proof fn lemma_lines_of(before: Seq<Seq<char>>, elements: Seq<ElementText>, line: Seq<char>)
    ensures
        lines_of(before, elements).contains(line) <==> before.contains(line) || (line.len() > 0
            && exists|i: int| 0 <= i < elements.len() && text_of(#[trigger] elements[i]) == line),
    decreases elements.len(),
{
    if elements.len() > 0 {
        let rest = elements.drop_last();
        let list = lines_of(before, rest);
        let all = lines_of(before, elements);
        lemma_lines_of(before, rest, line);
        let last = text_of(elements.last());
        if list.contains(line) {
            let j = choose|j: int| 0 <= j < list.len() && list[j] == line;
            assert(all[j] == line);
        }
        if all.contains(line) && !list.contains(line) {
            assert(text_of(elements[elements.len() - 1]) == line);
        }
        if line.len() > 0 && last == line && !list.contains(line) {
            assert(all[all.len() - 1] == line);
        }
        if exists|i: int| 0 <= i < rest.len() && text_of(#[trigger] rest[i]) == line {
            let i = choose|i: int| 0 <= i < rest.len() && text_of(#[trigger] rest[i]) == line;
            assert(text_of(elements[i]) == line);
        }
        if exists|i: int| 0 <= i < elements.len() && text_of(#[trigger] elements[i]) == line {
            let i = choose|i: int|
                0 <= i < elements.len() && text_of(#[trigger] elements[i]) == line;
            if i < rest.len() {
                assert(text_of(rest[i]) == line);
            }
        }
    }
}

/// The details of a lot are read by the classes and names that the auction house gives to the
/// elements.
pub proof fn law_details_are_read_by_their_classes(
    page: Seq<char>,
    gallery: Seq<FoundText>,
    bids: Seq<FoundText>,
    listings: Seq<FoundText>,
    links: Seq<FoundText>,
    details: DetailsText,
)
    requires
        page_found(page, true, "a[data-fancybox=\"gallery\"]"@, seq![], attribute_names()) == Ok::<
            _,
            Seq<char>,
        >(gallery),
        page_found(page, true, ".bid-details p"@, seq![], attribute_names()) == Ok::<_, Seq<char>>(
            bids,
        ),
        page_found(page, true, "#listing-details"@, seq!["tr"@], attribute_names()) == Ok::<
            _,
            Seq<char>,
        >(listings),
        page_found(page, true, ".documents-wrap a[href]"@, seq![], attribute_names()) == Ok::<
            _,
            Seq<char>,
        >(links),
        page_details(page) == Ok::<_, Fault>(details),
    ensures
        photos_of(gallery) == Ok::<_, Fault>(details.photos),
        documents_of(links) == Ok::<_, Fault>(details.documents),
        details.info_lines == cleaned_lines(info_of(bids, listings)),
{
}

} // verus!

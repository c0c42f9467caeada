use vstd::prelude::*;
use vstd::string::*;
use crate::face::{CardFace, MultiCardFace, faces_view};
use crate::page::pages_view;

verus! {

/// Everything before the first page: document metadata and the print layout
/// rules, sized so that one image is one card.
pub const PREAMBLE: &'static str = "<!DOCTYPE html><html><head><style>\n\tbody {\n\t\tmargin: 0;\n\t\tpadding: 0;\n\t\twidth: 210mm;\n\t}\n\tul {\n\t\talign-content: flex-start;\n\t\tdisplay: flex;\n\t\tflex-wrap: wrap;\n\t\tmargin: 0;\n\t\tpadding: 0;\n\t\tpage-break-inside: avoid;\n\t}\n\timg {\n\t\theight: 88mm;\n\t\twidth: 63mm;\n\t}\n</style>\n<title>Scryfall Proxy</title></head><body>";

/// Everything after the last page.
pub const CLOSING: &'static str = "</body></html>";

pub const PAGE_OPEN: &'static str = "<ul>";

pub const PAGE_CLOSE: &'static str = "</ul>";

pub const IMAGE_OPEN: &'static str = "<li><img src=\"";

pub const IMAGE_CLOSE: &'static str = "\"></li>";

/// The element that shows one face.
pub open spec fn image_text(u: Seq<char>) -> Seq<char> {
    IMAGE_OPEN@ + u + IMAGE_CLOSE@
}

/// The images of one page, in order.
pub open spec fn page_text(p: Seq<Seq<char>>) -> Seq<char>
    decreases p.len(),
{
    if p.len() == 0 {
        Seq::empty()
    } else {
        page_text(p.drop_last()) + image_text(p.last())
    }
}

/// One container per page, in order.
pub open spec fn pages_text(ps: Seq<Seq<Seq<char>>>) -> Seq<char>
    decreases ps.len(),
{
    if ps.len() == 0 {
        Seq::empty()
    } else {
        pages_text(ps.drop_last()) + PAGE_OPEN@ + page_text(ps.last()) + PAGE_CLOSE@
    }
}

/// The whole document for a run of pages.
pub open spec fn document_text(ps: Seq<Seq<Seq<char>>>) -> Seq<char> {
    PREAMBLE@ + pages_text(ps) + CLOSING@
}

/// The elements of a document's body.
pub enum Markup {
    PageOpen,
    Image(Seq<char>),
    PageClose,
}

pub open spec fn element_text(m: Markup) -> Seq<char> {
    match m {
        Markup::PageOpen => PAGE_OPEN@,
        Markup::Image(u) => image_text(u),
        Markup::PageClose => PAGE_CLOSE@,
    }
}

/// A run of elements written out.
pub open spec fn markup_text(ms: Seq<Markup>) -> Seq<char>
    decreases ms.len(),
{
    if ms.len() == 0 {
        Seq::empty()
    } else {
        markup_text(ms.drop_last()) + element_text(ms.last())
    }
}

/// The image sources of a run of elements, in order.
pub open spec fn image_sources(ms: Seq<Markup>) -> Seq<Seq<char>>
    decreases ms.len(),
{
    if ms.len() == 0 {
        Seq::empty()
    } else {
        match ms.last() {
            Markup::Image(u) => image_sources(ms.drop_last()).push(u),
            _ => image_sources(ms.drop_last()),
        }
    }
}

/// How many page containers a run of elements opens.
pub open spec fn container_count(ms: Seq<Markup>) -> nat
    decreases ms.len(),
{
    if ms.len() == 0 {
        0
    } else {
        container_count(ms.drop_last()) + if ms.last() is PageOpen {
            1nat
        } else {
            0nat
        }
    }
}

pub open spec fn images_markup(p: Seq<Seq<char>>) -> Seq<Markup>
    decreases p.len(),
{
    if p.len() == 0 {
        Seq::empty()
    } else {
        images_markup(p.drop_last()).push(Markup::Image(p.last()))
    }
}

/// The elements of a document body with the given pages.
pub open spec fn body_markup(ps: Seq<Seq<Seq<char>>>) -> Seq<Markup>
    decreases ps.len(),
{
    if ps.len() == 0 {
        Seq::empty()
    } else {
        body_markup(ps.drop_last()) + seq![Markup::PageOpen] + images_markup(ps.last()) + seq![
            Markup::PageClose,
        ]
    }
}

proof fn lemma_markup_concat(a: Seq<Markup>, b: Seq<Markup>)
    ensures
        markup_text(a + b) == markup_text(a) + markup_text(b),
        image_sources(a + b) == image_sources(a) + image_sources(b),
        container_count(a + b) == container_count(a) + container_count(b),
    decreases b.len(),
{
    if b.len() == 0 {
        assert(a + b =~= a);
        assert(markup_text(a) + markup_text(b) =~= markup_text(a));
        assert(image_sources(a) + image_sources(b) =~= image_sources(a));
    } else {
        lemma_markup_concat(a, b.drop_last());
        assert((a + b).drop_last() =~= a + b.drop_last());
        assert((a + b).last() == b.last());
        assert(markup_text(a + b) =~= markup_text(a) + markup_text(b));
        assert(image_sources(a + b) =~= image_sources(a) + image_sources(b));
    }
}

proof fn lemma_images_markup(p: Seq<Seq<char>>)
    ensures
        markup_text(images_markup(p)) == page_text(p),
        image_sources(images_markup(p)) == p,
        container_count(images_markup(p)) == 0,
    decreases p.len(),
{
    if p.len() > 0 {
        lemma_images_markup(p.drop_last());
        let m = images_markup(p);
        assert(m.drop_last() =~= images_markup(p.drop_last()));
        assert(p.drop_last().push(p.last()) =~= p);
    } else {
        assert(image_sources(images_markup(p)) =~= p);
    }
}

proof fn lemma_single_element(m: Markup)
    ensures
        markup_text(seq![m]) == element_text(m),
        image_sources(seq![m]) == (match m {
            Markup::Image(u) => seq![u],
            _ => Seq::<Seq<char>>::empty(),
        }),
        container_count(seq![m]) == if m is PageOpen {
            1nat
        } else {
            0nat
        },
{
    let e = Seq::<Markup>::empty();
    assert(seq![m].drop_last() =~= e);
    assert(markup_text(e) == Seq::<char>::empty());
    assert(image_sources(e) == Seq::<Seq<char>>::empty());
    assert(container_count(e) == 0);
    assert(markup_text(seq![m]) =~= element_text(m));
    assert(image_sources(seq![m]) =~= (match m {
        Markup::Image(u) => seq![u],
        _ => Seq::<Seq<char>>::empty(),
    }));
}

/// Writing a document and reading its elements back agree: the body is the
/// text of a run of elements with exactly one image per face, in the order of
/// the pages and of the faces on each, and exactly one container per page.
pub proof fn lemma_render_round_trip(ps: Seq<Seq<Seq<char>>>)
    ensures
        markup_text(body_markup(ps)) == pages_text(ps),
        image_sources(body_markup(ps)) == ps.flatten(),
        container_count(body_markup(ps)) == ps.len(),
    decreases ps.len(),
{
    if ps.len() == 0 {
        assert(image_sources(body_markup(ps)) =~= ps.flatten());
    } else {
        let init = ps.drop_last();
        let last = ps.last();
        lemma_render_round_trip(init);
        lemma_images_markup(last);
        let open = seq![Markup::PageOpen];
        let close = seq![Markup::PageClose];
        lemma_single_element(Markup::PageOpen);
        lemma_single_element(Markup::PageClose);
        let b = body_markup(init);
        let m = images_markup(last);
        lemma_markup_concat(b, open);
        lemma_markup_concat(b + open, m);
        lemma_markup_concat(b + open + m, close);
        assert(init.push(last) =~= ps);
        init.lemma_flatten_push(last);
        assert(image_sources(body_markup(ps)) =~= ps.flatten());
        assert(markup_text(body_markup(ps)) =~= pages_text(ps));
    }
}

impl CardFace {
    /// The element that shows this face.
    pub fn img_content(&self) -> (r: String)
        ensures
            r@ == image_text(self@),
    {
        let mut r = String::from_str(IMAGE_OPEN);
        r.append(self.image_url.as_str());
        r.append(IMAGE_CLOSE);
        r
    }
}

fn append_images(out: &mut String, faces: &Vec<CardFace>)
    ensures
        final(out)@ == old(out)@ + page_text(faces_view(faces@)),
{
    let ghost start = out@;
    let mut i: usize = 0;
    while i < faces.len()
        invariant
            i <= faces.len(),
            out@ == start + page_text(faces_view(faces@.take(i as int))),
        decreases faces.len() - i,
    {
        let img = faces[i].img_content();
        out.append(img.as_str());
        proof {
            let t = faces_view(faces@.take(i + 1));
            assert(t.drop_last() =~= faces_view(faces@.take(i as int)));
            assert(t.last() == faces@[i as int]@);
        }
        i = i + 1;
    }
    assert(faces@.take(i as int) =~= faces@);
}

impl MultiCardFace {
    /// The elements that show every face of this card, in order.
    pub fn img_content(&self) -> (r: String)
        ensures
            r@ == page_text(self@),
    {
        let mut r = String::new();
        append_images(&mut r, &self.card_faces);
        r
    }
}

/// The document that prints the given pages, one container per page.
pub fn render_document(pages: &Vec<Vec<CardFace>>) -> (r: String)
    ensures
        r@ == document_text(pages_view(pages@)),
{
    let ghost ps = pages_view(pages@);
    let mut out = String::from_str(PREAMBLE);
    let mut i: usize = 0;
    while i < pages.len()
        invariant
            i <= pages.len(),
            ps == pages_view(pages@),
            out@ == PREAMBLE@ + pages_text(ps.take(i as int)),
        decreases pages.len() - i,
    {
        out.append(PAGE_OPEN);
        append_images(&mut out, &pages[i]);
        out.append(PAGE_CLOSE);
        proof {
            let t = ps.take(i + 1);
            assert(t.drop_last() =~= ps.take(i as int));
            assert(t.last() == faces_view(pages@[i as int]@));
        }
        i = i + 1;
    }
    assert(ps.take(i as int) =~= ps);
    out.append(CLOSING);
    out
}

} // verus!

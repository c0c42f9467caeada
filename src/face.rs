use vstd::prelude::*;
use vstd::arithmetic::div_mod::lemma_fundamental_div_mod_converse;
use crate::error::RuntimeError;
use crate::json::{json_str_at, json_strs_at, json_string_at, json_strings_at, opt_string_view, opt_strings_view};

verus! {

/// Where a card's image address sits in a card object.
pub const IMAGE_POINTER: &'static str = "/image_uris/large";

/// Where a multi-faced card lists its faces.
pub const FACES_POINTER: &'static str = "/card_faces";

/// One printable image: one side of one physical card.
pub struct CardFace {
    pub image_url: String,
}

impl View for CardFace {
    type V = Seq<char>;

    open spec fn view(&self) -> Seq<char> {
        self.image_url@
    }
}

/// A card whose response lists several faces, each with its own image.
pub struct MultiCardFace {
    pub card_faces: Vec<CardFace>,
}

/// The image addresses of a run of faces.
pub open spec fn faces_view(v: Seq<CardFace>) -> Seq<Seq<char>> {
    v.map_values(|f: CardFace| f@)
}

impl View for MultiCardFace {
    type V = Seq<Seq<char>>;

    open spec fn view(&self) -> Seq<Seq<char>> {
        faces_view(self.card_faces@)
    }
}

/// The two accepted shapes of a card response.
pub enum CardShape {
    SingleFace(CardFace),
    MultiFace(MultiCardFace),
}

impl View for CardShape {
    type V = Seq<Seq<char>>;

    /// The faces of one copy of the card, in order.
    open spec fn view(&self) -> Seq<Seq<char>> {
        match self {
            CardShape::SingleFace(f) => seq![f@],
            CardShape::MultiFace(m) => m@,
        }
    }
}

/// The faces of one copy of a card: the single image where there is one,
/// else the listed faces where they are, else nothing.
pub open spec fn shape_faces(single: Option<Seq<char>>, multi: Option<Seq<Seq<char>>>) -> Option<
    Seq<Seq<char>>,
> {
    match single {
        Some(u) => Some(seq![u]),
        None => multi,
    }
}

/// The faces of one copy of the card that a response describes.
pub open spec fn response_faces(text: Seq<char>) -> Option<Seq<Seq<char>>> {
    shape_faces(
        json_str_at(text, IMAGE_POINTER@),
        json_strs_at(text, FACES_POINTER@, IMAGE_POINTER@),
    )
}

/// `s` written `k` times over.
pub open spec fn repeat(s: Seq<Seq<char>>, k: nat) -> Seq<Seq<char>>
    decreases k,
{
    if k == 0 {
        Seq::empty()
    } else {
        repeat(s, (k - 1) as nat) + s
    }
}

/// What a response gives for a requested count.
pub open spec fn normalized(text: Seq<char>, count: u8) -> Result<Seq<Seq<char>>, RuntimeError> {
    match response_faces(text) {
        Some(one) => Ok(repeat(one, count as nat)),
        None => Err(RuntimeError::ParseJsonError),
    }
}

pub(crate) proof fn lemma_faces_view_push(s: Seq<CardFace>, x: CardFace)
    ensures
        faces_view(s.push(x)) == faces_view(s).push(x@),
{
    assert(faces_view(s.push(x)) =~= faces_view(s).push(x@));
}

impl CardFace {
    pub fn copied(&self) -> (r: CardFace)
        ensures
            r@ == self@,
    {
        CardFace { image_url: self.image_url.clone() }
    }
}

fn faces_from_urls(urls: Vec<String>) -> (r: Vec<CardFace>)
    ensures
        faces_view(r@) == urls@.map_values(|s: String| s@),
{
    let mut r: Vec<CardFace> = Vec::new();
    let mut i: usize = 0;
    while i < urls.len()
        invariant
            i <= urls.len(),
            faces_view(r@) == urls@.take(i as int).map_values(|s: String| s@),
        decreases urls.len() - i,
    {
        let ghost old_r = r@;
        r.push(CardFace { image_url: urls[i].clone() });
        assert(urls@.take(i + 1) == urls@.take(i as int).push(urls@[i as int]));
        proof {
            lemma_faces_view_push(old_r, r@.last());
        }
        assert(urls@.take(i + 1).map_values(|s: String| s@) =~= urls@.take(i as int).map_values(
            |s: String| s@,
        ).push(urls@[i as int]@));
        i = i + 1;
    }
    assert(urls@.take(i as int) == urls@);
    assert(faces_view(r@) =~= urls@.map_values(|s: String| s@));
    r
}

/// Picks the shape of a card from what each reading of its response found:
/// the single image where there is one, else the listed faces, else
/// `ParseJsonError`.
pub fn shape_from(single: Option<String>, multi: Option<Vec<String>>) -> (r: Result<CardShape, RuntimeError>)
    ensures
        match r {
            Ok(shape) => shape_faces(opt_string_view(single), opt_strings_view(multi)) == Some(shape@)
                && (shape is SingleFace <==> single is Some),
            Err(e) => e == RuntimeError::ParseJsonError
                && shape_faces(opt_string_view(single), opt_strings_view(multi)) is None,
        },
{
    match single {
        Some(u) => Ok(CardShape::SingleFace(CardFace { image_url: u })),
        None => match multi {
            Some(urls) => Ok(CardShape::MultiFace(MultiCardFace { card_faces: faces_from_urls(urls) })),
            None => Err(RuntimeError::ParseJsonError),
        },
    }
}

/// Reads a card response as a single-faced card, or else as a multi-faced one.
pub fn parse_json(data: &String) -> (r: Result<CardShape, RuntimeError>)
    ensures
        match r {
            Ok(shape) => response_faces(data@) == Some(shape@),
            Err(e) => e == RuntimeError::ParseJsonError && response_faces(data@) is None,
        },
{
    let single = json_string_at(data.as_str(), IMAGE_POINTER);
    let multi = if single.is_some() {
        None
    } else {
        json_strings_at(data.as_str(), FACES_POINTER, IMAGE_POINTER)
    };
    shape_from(single, multi)
}

impl MultiCardFace {
    fn faces_copied(&self) -> (r: Vec<CardFace>)
        ensures
            faces_view(r@) == self@,
    {
        let mut r: Vec<CardFace> = Vec::new();
        let mut i: usize = 0;
        while i < self.card_faces.len()
            invariant
                i <= self.card_faces.len(),
                faces_view(r@) == faces_view(self.card_faces@.take(i as int)),
            decreases self.card_faces.len() - i,
        {
            let ghost old_r = r@;
            r.push(self.card_faces[i].copied());
            assert(self.card_faces@.take(i + 1) == self.card_faces@.take(i as int).push(
                self.card_faces@[i as int],
            ));
            proof {
                lemma_faces_view_push(old_r, r@.last());
                lemma_faces_view_push(self.card_faces@.take(i as int), self.card_faces@[i as int]);
            }
            i = i + 1;
        }
        assert(self.card_faces@.take(i as int) == self.card_faces@);
        r
    }
}

impl CardShape {
    /// The faces of one copy of this card.
    pub fn faces(&self) -> (r: Vec<CardFace>)
        ensures
            faces_view(r@) == self@,
    {
        match self {
            CardShape::SingleFace(f) => {
                let mut r: Vec<CardFace> = Vec::new();
                r.push(f.copied());
                assert(faces_view(r@) == seq![f@]);
                r
            },
            CardShape::MultiFace(m) => m.faces_copied(),
        }
    }
}

/// The faces of `count` copies of a card, each copy in the card's face order.
pub fn replicate(shape: &CardShape, count: u8) -> (r: Vec<CardFace>)
    ensures
        faces_view(r@) == repeat(shape@, count as nat),
{
    let one = shape.faces();
    let mut r: Vec<CardFace> = Vec::new();
    let mut k: u8 = 0;
    while k < count
        invariant
            k <= count,
            faces_view(one@) == shape@,
            faces_view(r@) == repeat(shape@, k as nat),
        decreases count - k,
    {
        let ghost before = r@;
        let mut j: usize = 0;
        while j < one.len()
            invariant
                j <= one.len(),
                faces_view(one@) == shape@,
                faces_view(r@) == faces_view(before) + faces_view(one@.take(j as int)),
            decreases one.len() - j,
        {
            let ghost old_r = r@;
            r.push(one[j].copied());
            assert(one@.take(j + 1) == one@.take(j as int).push(one@[j as int]));
            proof {
                lemma_faces_view_push(old_r, r@.last());
                lemma_faces_view_push(one@.take(j as int), one@[j as int]);
            }
            j = j + 1;
        }
        assert(one@.take(j as int) == one@);
        k = k + 1;
    }
    r
}

/// Reads a card response and writes out the faces of `count` copies of it.
pub fn normalize(data: &String, count: u8) -> (r: Result<Vec<CardFace>, RuntimeError>)
    ensures
        match r {
            Ok(faces) => normalized(data@, count) == Ok::<Seq<Seq<char>>, RuntimeError>(faces_view(faces@)),
            Err(e) => normalized(data@, count) == Err::<Seq<Seq<char>>, RuntimeError>(e),
        },
{
    match parse_json(data) {
        Ok(shape) => Ok(replicate(&shape, count)),
        Err(e) => Err(e),
    }
}

proof fn lemma_repeat_single(u: Seq<char>, k: nat)
    ensures
        repeat(seq![u], k).len() == k,
        forall|i: int| 0 <= i < k ==> #[trigger] repeat(seq![u], k)[i] == u,
    decreases k,
{
    if k > 0 {
        lemma_repeat_single(u, (k - 1) as nat);
    }
}

proof fn lemma_repeat_multi(fs: Seq<Seq<char>>, k: nat)
    ensures
        repeat(fs, k).len() == k * fs.len(),
        forall|i: int| 0 <= i < k * fs.len() ==> #[trigger] repeat(fs, k)[i] == fs[i % (fs.len() as int)],
    decreases k,
{
    if k > 0 {
        let m = fs.len() as int;
        let p = repeat(fs, (k - 1) as nat);
        lemma_repeat_multi(fs, (k - 1) as nat);
        assert(repeat(fs, k) == p + fs);
        assert(k * m == (k - 1) * m + m) by (nonlinear_arith);
        assert(p.len() == (k - 1) * m);
        assert forall|i: int| 0 <= i < k * fs.len() implies #[trigger] repeat(fs, k)[i] == fs[i % m] by {
            if i >= (k - 1) * m {
                lemma_fundamental_div_mod_converse(i, m, (k - 1) as int, i - (k - 1) * m);
            } else {
                assert(repeat(fs, k)[i] == p[i]);
            }
        }
    } else {
        assert(k * fs.len() == 0) by (nonlinear_arith)
            requires
                k == 0,
        ;
    }
}

/// A single-faced response read for a count `k` gives `k` faces, each with
/// the response's image.
pub proof fn lemma_single_face_copies(text: Seq<char>, k: u8)
    requires
        json_str_at(text, IMAGE_POINTER@) is Some,
    ensures
        normalized(text, k) is Ok,
        normalized(text, k)->Ok_0.len() == k,
        forall|i: int|
            0 <= i < k ==> #[trigger] normalized(text, k)->Ok_0[i] == json_str_at(
                text,
                IMAGE_POINTER@,
            )->Some_0,
{
    lemma_repeat_single(json_str_at(text, IMAGE_POINTER@)->Some_0, k as nat);
}

/// A multi-faced response with faces `f₁..fₘ` read for a count `k` gives
/// `k*m` faces: `f₁..fₘ`, `k` times over.
pub proof fn lemma_multi_face_copies(text: Seq<char>, k: u8)
    requires
        json_str_at(text, IMAGE_POINTER@) is None,
        json_strs_at(text, FACES_POINTER@, IMAGE_POINTER@) is Some,
    ensures
        ({
            let fs = json_strs_at(text, FACES_POINTER@, IMAGE_POINTER@)->Some_0;
            &&& normalized(text, k) is Ok
            &&& normalized(text, k)->Ok_0.len() == k * fs.len()
            &&& forall|i: int|
                0 <= i < k * fs.len() ==> #[trigger] normalized(text, k)->Ok_0[i] == fs[i % (
                fs.len() as int)]
        }),
{
    lemma_repeat_multi(json_strs_at(text, FACES_POINTER@, IMAGE_POINTER@)->Some_0, k as nat);
}

/// A count of zero gives no faces, whatever the shape, and is no error.
pub proof fn lemma_zero_copies(text: Seq<char>)
    requires
        response_faces(text) is Some,
    ensures
        normalized(text, 0) == Ok::<Seq<Seq<char>>, RuntimeError>(Seq::<Seq<char>>::empty()),
{
}

} // verus!

//! Text typed into a cell, as a sequence of [`Piece`]s.

use vstd::prelude::*;

use crate::number::{number_text, number_text_exec, Number, Piece, PieceView};

verus! {

/// The contents of a sequence of pieces.
pub open spec fn pieces_view(v: Seq<Piece>) -> Seq<PieceView> {
    v.map_values(|p: Piece| p@)
}

/// Cell input: literal text interleaved with numbers whose decimal text is
/// rendered by the caller (see [`crate::number`]).
#[derive(Debug, Clone)]
pub struct InputText {
    pub pieces: Vec<Piece>,
}

impl View for InputText {
    type V = Seq<PieceView>;

    open spec fn view(&self) -> Seq<PieceView> {
        pieces_view(self.pieces@)
    }
}

/// A single text piece.
pub open spec fn text_piece(s: Seq<char>) -> Seq<PieceView> {
    seq![PieceView::Text(s)]
}

/// The text of the pieces when every number in them has a known text.
pub open spec fn render_exact(v: Seq<PieceView>) -> Option<Seq<char>>
    decreases v.len(),
{
    if v.len() == 0 {
        Some(Seq::empty())
    } else {
        match render_exact(v.drop_last()) {
            None => None,
            Some(head) => match v.last() {
                PieceView::Text(t) => Some(head + t),
                PieceView::Number(n) => match number_text(n) {
                    Some(t) => Some(head + t),
                    None => None,
                },
            },
        }
    }
}

/// The numbers among the pieces, in order.
pub open spec fn piece_numbers(v: Seq<PieceView>) -> Seq<Number>
    decreases v.len(),
{
    if v.len() == 0 {
        Seq::empty()
    } else {
        match v.last() {
            PieceView::Text(_) => piece_numbers(v.drop_last()),
            PieceView::Number(n) => piece_numbers(v.drop_last()).push(n),
        }
    }
}

/// The text of the pieces, with the `i`-th number written as `texts[i]`.
pub open spec fn render_with(v: Seq<PieceView>, texts: Seq<Seq<char>>) -> Seq<char>
    decreases v.len(),
{
    if v.len() == 0 {
        Seq::empty()
    } else {
        let k = piece_numbers(v.drop_last()).len();
        match v.last() {
            PieceView::Text(t) => render_with(v.drop_last(), texts) + t,
            PieceView::Number(_) => render_with(v.drop_last(), texts) + texts[k as int],
        }
    }
}

impl InputText {
    /// A copy of this input.
    pub fn duplicate(&self) -> (r: InputText)
        ensures
            r@ == self@,
    {
        let mut pieces: Vec<Piece> = Vec::new();
        let mut i: usize = 0;
        while i < self.pieces.len()
            invariant
                i <= self.pieces@.len(),
                pieces_view(pieces@) == pieces_view(self.pieces@.take(i as int)),
            decreases self.pieces@.len() - i,
        {
            let p = match &self.pieces[i] {
                Piece::Text(t) => Piece::Text(t.clone()),
                Piece::Number(n) => Piece::Number(*n),
            };
            let ghost before = pieces@;
            pieces.push(p);
            assert(pieces_view(pieces@) =~= pieces_view(before).push(p@));
            assert(self.pieces@.take(i + 1) =~= self.pieces@.take(i as int).push(self.pieces@[i as int]));
            assert(pieces_view(self.pieces@.take(i + 1)) =~= pieces_view(self.pieces@.take(i as int)).push(
                self.pieces@[i as int]@,
            ));
            i += 1;
        }
        assert(self.pieces@.take(i as int) =~= self.pieces@);
        InputText { pieces }
    }

    /// Empty input.
    pub fn new() -> (r: InputText)
        ensures
            r@ == Seq::<PieceView>::empty(),
    {
        let r = InputText { pieces: Vec::new() };
        assert(r@ =~= Seq::<PieceView>::empty());
        r
    }

    /// Input made of one literal text.
    pub fn from_string(s: String) -> (r: InputText)
        ensures
            r@ == text_piece(s@),
    {
        let mut pieces = Vec::new();
        pieces.push(Piece::Text(s));
        let r = InputText { pieces };
        assert(r@ =~= text_piece(s@));
        r
    }

    /// Input made of one literal text.
    pub fn from_str(s: &str) -> (r: InputText)
        ensures
            r@ == text_piece(s@),
    {
        InputText::from_string(String::from_str(s))
    }

    /// Appends a literal text piece.
    pub fn push_string(&mut self, s: String)
        ensures
            final(self)@ == old(self)@ + text_piece(s@),
    {
        let ghost before = self@;
        self.pieces.push(Piece::Text(s));
        assert(self@ =~= before + text_piece(s@));
    }

    /// Appends a literal text piece.
    pub fn push_str(&mut self, s: &str)
        ensures
            final(self)@ == old(self)@ + text_piece(s@),
    {
        self.push_string(String::from_str(s));
    }

    /// Appends all pieces of `other`.
    pub fn append(&mut self, other: InputText)
        ensures
            final(self)@ == old(self)@ + other@,
    {
        let ghost before = self@;
        let mut o = other.pieces;
        self.pieces.append(&mut o);
        assert(self@ =~= before + other@);
    }

    /// The text of this input when every number in it has a known text.
    pub fn to_text(&self) -> (r: Option<String>)
        ensures
            match render_exact(self@) {
                Some(t) => r matches Some(s) && s@ == t,
                None => r is None,
            },
    {
        let mut out = String::new();
        let mut i: usize = 0;
        while i < self.pieces.len()
            invariant
                i <= self.pieces@.len(),
                render_exact(self@.take(i as int)) == Some(out@),
            decreases self.pieces@.len() - i,
        {
            let ghost pre = self@.take(i as int);
            assert(self@.take(i + 1).drop_last() =~= pre);
            match &self.pieces[i] {
                Piece::Text(t) => {
                    out.append(t.as_str());
                },
                Piece::Number(n) => {
                    match number_text_exec(*n) {
                        Some(t) => out.append(t.as_str()),
                        None => {
                            proof {
                                lemma_render_exact_none_extends(self@, (i + 1) as nat);
                            }
                            return None;
                        },
                    }
                },
            }
            i += 1;
        }
        assert(self@.take(i as int) =~= self@);
        Some(out)
    }

    /// The numbers in this input, in order: the ones `render` needs texts for.
    pub fn numbers(&self) -> (r: Vec<Number>)
        ensures
            r@ == piece_numbers(self@),
    {
        let mut r = Vec::new();
        let mut i: usize = 0;
        while i < self.pieces.len()
            invariant
                i <= self.pieces@.len(),
                r@ == piece_numbers(self@.take(i as int)),
            decreases self.pieces@.len() - i,
        {
            assert(self@.take(i + 1).drop_last() =~= self@.take(i as int));
            match &self.pieces[i] {
                Piece::Text(_) => {},
                Piece::Number(n) => r.push(*n),
            }
            i += 1;
        }
        assert(self@.take(i as int) =~= self@);
        r
    }

    /// The text of this input, with the `i`-th number written as
    /// `number_texts[i]`.
    pub fn render(&self, number_texts: &Vec<String>) -> (s: String)
        requires
            number_texts@.len() == piece_numbers(self@).len(),
        ensures
            s@ == render_with(self@, number_texts@.map_values(|t: String| t@)),
    {
        let ghost texts = number_texts@.map_values(|t: String| t@);
        let mut out = String::new();
        let mut i: usize = 0;
        let mut k: usize = 0;
        while i < self.pieces.len()
            invariant
                i <= self.pieces@.len(),
                k == piece_numbers(self@.take(i as int)).len(),
                number_texts@.len() == piece_numbers(self@).len(),
                texts == number_texts@.map_values(|t: String| t@),
                out@ == render_with(self@.take(i as int), texts),
            decreases self.pieces@.len() - i,
        {
            assert(self@.take(i + 1).drop_last() =~= self@.take(i as int));
            proof {
                lemma_piece_numbers_prefix(self@, (i + 1) as nat);
            }
            match &self.pieces[i] {
                Piece::Text(t) => {
                    out.append(t.as_str());
                },
                Piece::Number(_) => {
                    assert(piece_numbers(self@.take(i + 1)).len() == k + 1);
                    let count = number_texts.len();
                    assert(k < count);
                    out.append(number_texts[k].as_str());
                    k += 1;
                },
            }
            i += 1;
        }
        assert(self@.take(i as int) =~= self@);
        out
    }
}

/// Once a prefix has a number without known text, so has the whole.
proof fn lemma_render_exact_none_extends(v: Seq<PieceView>, i: nat)
    requires
        i <= v.len(),
        render_exact(v.take(i as int)) is None,
    ensures
        render_exact(v) is None,
    decreases v.len() - i,
{
    if i < v.len() {
        assert(v.take((i + 1) as int).drop_last() =~= v.take(i as int));
        lemma_render_exact_none_extends(v, i + 1);
    } else {
        assert(v.take(i as int) =~= v);
    }
}

/// A prefix has no more numbers than the whole.
proof fn lemma_piece_numbers_prefix(v: Seq<PieceView>, i: nat)
    requires
        i <= v.len(),
    ensures
        piece_numbers(v.take(i as int)).len() <= piece_numbers(v).len(),
    decreases v.len() - i,
{
    if i < v.len() {
        assert(v.take((i + 1) as int).drop_last() =~= v.take(i as int));
        lemma_piece_numbers_prefix(v, i + 1);
    } else {
        assert(v.take(i as int) =~= v);
    }
}

} // verus!

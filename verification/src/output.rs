//! What rendering writes: characters, and for a terminal the changes of color
//! between them.
use crate::text::push_char;
use vstd::prelude::*;

verus! {

/// The colors that rendering uses.
#[derive(Clone, Copy, Debug, PartialEq, Eq)]
pub enum Color {
    BrightBlue,
    White,
    Green,
    Yellow,
    BrightRed,
}

/// One piece of output.
#[derive(Clone, Copy, Debug, PartialEq, Eq)]
pub enum Piece {
    /// A character of text.
    Char(char),
    /// From here on the text has this color.
    Foreground(Color),
    /// From here on the text has the color it had at first.
    Reset,
}

/// Where output goes.
#[derive(Clone, Copy, Debug, PartialEq, Eq)]
pub enum Sink {
    /// To a buffer, for a file.
    Buffer,
    /// To a terminal that takes colors.
    Terminal,
    /// To the standard output, which takes text only.
    TerminalFallback,
}

/// The output written so far, and where it goes.
#[derive(Debug)]
pub struct Output {
    sink: Sink,
    pieces: Vec<Piece>,
}

/// The piece that the character `c` makes.
pub open spec fn glyph(c: char) -> Piece {
    Piece::Char(c)
}

/// The pieces that the characters of `s` make.
pub open spec fn glyphs(s: Seq<char>) -> Seq<Piece>
    decreases s.len(),
{
    if s.len() == 0 {
        Seq::empty()
    } else {
        glyphs(s.drop_last()).push(glyph(s.last()))
    }
}

/// The change to `color`, where colors are shown.
pub open spec fn paint(shown: bool, color: Color) -> Seq<Piece> {
    if shown {
        seq![Piece::Foreground(color)]
    } else {
        Seq::empty()
    }
}

/// The change back to the first color, where colors are shown.
pub open spec fn unpaint(shown: bool) -> Seq<Piece> {
    if shown {
        seq![Piece::Reset]
    } else {
        Seq::empty()
    }
}

/// Whether `pieces` are characters only.
pub open spec fn is_plain(pieces: Seq<Piece>) -> bool {
    forall|i: int| 0 <= i < pieces.len() ==> #[trigger] pieces[i] is Char
}

/// The characters among `pieces`, in order.
pub open spec fn chars_of(pieces: Seq<Piece>) -> Seq<char>
    decreases pieces.len(),
{
    if pieces.len() == 0 {
        Seq::empty()
    } else {
        match pieces.last() {
            Piece::Char(c) => chars_of(pieces.drop_last()).push(c),
            _ => chars_of(pieces.drop_last()),
        }
    }
}

/// The pieces of two sequences of characters in a row are those of their
/// concatenation.
pub proof fn lemma_glyphs_add(a: Seq<char>, b: Seq<char>)
    ensures
        glyphs(a) + glyphs(b) == glyphs(a + b),
    decreases b.len(),
{
    if b.len() == 0 {
        assert(a + b =~= a);
        assert(glyphs(a) + glyphs(b) =~= glyphs(a));
    } else {
        lemma_glyphs_add(a, b.drop_last());
        assert((a + b).drop_last() =~= a + b.drop_last());
        assert((a + b).last() == b.last());
        assert(glyphs(a) + glyphs(b) =~= (glyphs(a) + glyphs(b.drop_last())).push(
            glyph(b.last()),
        ));
    }
}

/// Writing `added` and then `more` is writing `added + more`.
pub proof fn lemma_wrote_more(start: Seq<Piece>, added: Seq<Piece>, more: Seq<Piece>)
    ensures
        (start + added) + more == start + (added + more),
        more.len() == 0 ==> start + added == start + (added + more),
{
    assert((start + added) + more =~= start + (added + more));
    if more.len() == 0 {
        assert(start + added =~= start + (added + more));
    }
}

/// Writing nothing leaves the output as it is.
pub proof fn lemma_wrote_nothing(start: Seq<Piece>)
    ensures
        start + Seq::<Piece>::empty() == start,
{
    assert(start + Seq::<Piece>::empty() =~= start);
}

impl Output {
    /// An output is well formed when it holds a change of color only if it
    /// goes to a terminal that takes colors. Every output that [`Output::new`]
    /// made and the functions here have written to is.
    pub closed spec fn wf(&self) -> bool {
        self.sink != Sink::Terminal ==> is_plain(self.pieces@)
    }

    /// Whether writing `added` to `self` gave `after`.
    pub open spec fn wrote(&self, after: Output, added: Seq<Piece>) -> bool {
        &&& after.sink() == self.sink()
        &&& after@ == self@ + added
        &&& self.wf() ==> after.wf()
    }

    /// Where the output goes.
    pub closed spec fn sink(&self) -> Sink {
        self.sink
    }

    /// The pieces written so far.
    pub closed spec fn view(&self) -> Seq<Piece> {
        self.pieces@
    }

    /// Whether changes of color are written.
    pub open spec fn takes_color(&self) -> bool {
        self.sink() == Sink::Terminal
    }

    /// An empty output that goes to `sink`.
    pub fn new(sink: Sink) -> (r: Output)
        ensures
            r.sink() == sink,
            r@ == Seq::<Piece>::empty(),
            r.wf(),
    {
        Output { sink, pieces: Vec::new() }
    }

    /// An empty output for a buffer.
    pub fn buffered() -> (r: Output)
        ensures
            r.sink() == Sink::Buffer,
            r@ == Seq::<Piece>::empty(),
            r.wf(),
    {
        Output::new(Sink::Buffer)
    }

    /// An empty output for a terminal that takes colors.
    pub fn terminal() -> (r: Output)
        ensures
            r.sink() == Sink::Terminal,
            r@ == Seq::<Piece>::empty(),
            r.wf(),
    {
        Output::new(Sink::Terminal)
    }

    /// Whether the output goes to a buffer.
    pub fn is_buffered(&self) -> (r: bool)
        ensures
            r == (self.sink() == Sink::Buffer),
    {
        match self.sink {
            Sink::Buffer => true,
            _ => false,
        }
    }

    /// Whether the output goes to a terminal that takes colors.
    pub fn is_colored(&self) -> (r: bool)
        ensures
            r == self.takes_color(),
    {
        match self.sink {
            Sink::Terminal => true,
            _ => false,
        }
    }

    /// Changes the color of the text that follows, on a terminal that takes colors.
    pub fn fg(&mut self, color: Color)
        ensures
            old(self).wrote(*final(self), paint(old(self).takes_color(), color)),
    {
        let ghost before = self.pieces@;
        match self.sink {
            Sink::Terminal => {
                self.pieces.push(Piece::Foreground(color));
                assert(self.pieces@ =~= before + paint(true, color));
            },
            _ => {
                assert(self.pieces@ =~= before + paint(false, color));
            },
        }
    }

    /// Changes the color of the text that follows back to the first one, on a
    /// terminal that takes colors.
    pub fn reset(&mut self)
        ensures
            old(self).wrote(*final(self), unpaint(old(self).takes_color())),
    {
        let ghost before = self.pieces@;
        match self.sink {
            Sink::Terminal => {
                self.pieces.push(Piece::Reset);
                assert(self.pieces@ =~= before + unpaint(true));
            },
            _ => {
                assert(self.pieces@ =~= before + unpaint(false));
            },
        }
    }

    /// Writes a character.
    pub fn write_char(&mut self, c: char)
        ensures
            old(self).wrote(*final(self), glyphs(seq![c])),
    {
        let ghost before = self.pieces@;
        self.pieces.push(Piece::Char(c));
        proof {
            assert(seq![c].drop_last() =~= Seq::<char>::empty());
            assert(seq![c].last() == c);
            assert(glyphs(seq![c].drop_last()) =~= Seq::<Piece>::empty());
            assert(glyphs(seq![c]) =~= seq![glyph(c)]);
            assert(self.pieces@ =~= before + glyphs(seq![c]));
        }
    }

    /// Writes the characters of `s`.
    pub fn write_chars(&mut self, s: &Vec<char>)
        ensures
            old(self).wrote(*final(self), glyphs(s@)),
    {
        let ghost before = self@;
        let mut i: usize = 0;
        assert(before + glyphs(s@.take(0)) =~= before);
        while i < s.len()
            invariant
                i <= s.len(),
                self.sink() == old(self).sink(),
                old(self).wf() ==> self.wf(),
                self@ == before + glyphs(s@.take(i as int)),
            decreases s.len() - i,
        {
            self.write_char(s[i]);
            proof {
                lemma_glyphs_add(s@.take(i as int), seq![s@[i as int]]);
                assert(s@.take(i as int) + seq![s@[i as int]] =~= s@.take(i + 1));
                assert(before + glyphs(s@.take(i as int)) + glyphs(seq![s@[i as int]]) =~= before
                    + glyphs(s@.take(i + 1)));
            }
            i += 1;
        }
        assert(s@.take(i as int) =~= s@);
    }

    /// Writes a string.
    pub fn write_str(&mut self, s: &str)
        ensures
            old(self).wrote(*final(self), glyphs(s@)),
    {
        let chars = crate::text::to_chars(s);
        self.write_chars(&chars);
    }

    /// The pieces written so far.
    pub fn pieces(&self) -> (r: &Vec<Piece>)
        ensures
            r@ == self@,
            self.wf() && !self.takes_color() ==> is_plain(r@),
    {
        &self.pieces
    }

    /// The text written so far, without the changes of color.
    pub fn to_text(&self) -> (r: String)
        ensures
            r@ == chars_of(self@),
    {
        let mut r = String::new();
        let mut i: usize = 0;
        assert(self.pieces@.take(0) =~= Seq::empty());
        while i < self.pieces.len()
            invariant
                i <= self.pieces.len(),
                r@ == chars_of(self.pieces@.take(i as int)),
            decreases self.pieces.len() - i,
        {
            assert(self.pieces@.take(i + 1).drop_last() =~= self.pieces@.take(i as int));
            match self.pieces[i] {
                Piece::Char(c) => {
                    push_char(&mut r, c);
                },
                _ => {},
            }
            i += 1;
        }
        assert(self.pieces@.take(i as int) =~= self.pieces@);
        r
    }
}

} // verus!

use vstd::prelude::*;
use vstd::utf8::*;

use crate::data::{lexemes_view, Lexeme, SpecLexeme};
use crate::text::{byte_offset, char_width, lemma_byte_offset_bounds, lemma_byte_offset_step, spec_char_indices};

verus! {

/// Offsets that grow by at least one from each character to the next.
pub open spec fn offsets_increasing(s: Seq<(usize, char)>) -> bool {
    forall|i: int, j: int|
        #![trigger s[i], s[j]]
        0 <= i <= j < s.len() ==> s[i].0 + (j - i) <= s[j].0
}

/// The characters of `s` from position `p` up to (not including) position `q`.
pub open spec fn text_of(s: Seq<(usize, char)>, p: int, q: int) -> Seq<char> {
    s.subrange(p, q).map_values(|x: (usize, char)| x.1)
}

/// A text being read: its characters, each with the byte offset at which it starts, and the
/// position of the next character to read.
pub struct CharStream {
    chars: Vec<(usize, char)>,
    pos: usize,
}

impl CharStream {
    /// The characters of the text, each with its byte offset.
    pub closed spec fn items(&self) -> Seq<(usize, char)> {
        self.chars@
    }

    /// The position of the next character to read.
    pub closed spec fn pos(&self) -> int {
        self.pos as int
    }

    /// The stream is well formed: its position lies within the text, and its offsets grow
    /// at least by one per character.
    pub open spec fn wf(&self) -> bool {
        &&& 0 <= self.pos() <= self.items().len()
        &&& offsets_increasing(self.items())
    }

    /// A stream at the start of `text`, whose characters and offsets are those that
    /// `str::char_indices` yields.
    pub fn new(text: &str) -> (r: Self)
        requires
            encode_utf8(text@).len() <= usize::MAX,
        ensures
            r.wf(),
            r.items() == spec_char_indices(text@),
            r.pos() == 0,
    {
        let n = text.unicode_len();
        let mut chars: Vec<(usize, char)> = Vec::new();
        let mut offset: usize = 0;
        let mut i: usize = 0;
        while i < n
            invariant
                n == text@.len(),
                0 <= i <= n,
                encode_utf8(text@).len() <= usize::MAX,
                offset == byte_offset(text@, i as int),
                chars@ =~= spec_char_indices(text@).take(i as int),
            decreases n - i,
        {
            let c = text.get_char(i);
            proof {
                lemma_byte_offset_step(text@, i as int);
                lemma_byte_offset_bounds(text@, i as int + 1, i as int + 1);
            }
            chars.push((offset, c));
            offset = offset + char_width(c);
            i = i + 1;
        }
        proof {
            let s = spec_char_indices(text@);
            assert(chars@ =~= s);
            assert forall|a: int, b: int|
                #![trigger s[a], s[b]]
                0 <= a <= b < s.len() implies s[a].0 + (b - a) <= s[b].0 by {
                lemma_byte_offset_bounds(text@, a, b);
                lemma_byte_offset_bounds(text@, b, b);
            }
        }
        CharStream { chars, pos: 0 }
    }

    /// The position of the next character to read.
    pub fn position(&self) -> (r: usize)
        ensures
            r == self.pos(),
    {
        self.pos
    }

    /// Reads the next character: returns it with its offset and moves past it; at the end,
    /// returns `None` and stays.
    pub fn next(&mut self) -> (r: Option<(usize, char)>)
        requires
            old(self).wf(),
        ensures
            final(self).wf(),
            final(self).items() == old(self).items(),
            old(self).pos() < old(self).items().len() ==> r == Some(old(self).items()[old(self).pos()])
                && final(self).pos() == old(self).pos() + 1,
            old(self).pos() >= old(self).items().len() ==> r is None && final(self).pos() == old(self).pos(),
    {
        if self.pos < self.chars.len() {
            let r = self.chars[self.pos];
            self.pos = self.pos + 1;
            Some(r)
        } else {
            None
        }
    }

    /// Moves back (or forward) to position `p`.
    pub fn set_position(&mut self, p: usize)
        requires
            old(self).wf(),
            p <= old(self).items().len(),
        ensures
            final(self).wf(),
            final(self).items() == old(self).items(),
            final(self).pos() == p,
    {
        self.pos = p;
    }

    /// Whether every character has been read.
    pub fn at_end(&self) -> (r: bool)
        requires
            self.wf(),
        ensures
            r == (self.pos() == self.items().len()),
    {
        self.pos == self.chars.len()
    }
}

/// A sequence of lexemes being read, and the position of the next one. Each lexeme is
/// read with its position, as `iter().enumerate()` yields it.
pub struct LexemeStream<'a> {
    lexemes: &'a [Lexeme],
    pos: usize,
}

impl<'a> LexemeStream<'a> {
    /// The models of the lexemes.
    pub closed spec fn items(&self) -> Seq<SpecLexeme> {
        lexemes_view(self.lexemes@)
    }

    /// The position of the next lexeme to read.
    pub closed spec fn pos(&self) -> int {
        self.pos as int
    }

    /// The position lies within the sequence.
    pub open spec fn wf(&self) -> bool {
        0 <= self.pos() <= self.items().len()
    }

    /// A stream at the start of `lexemes`.
    pub fn new(lexemes: &'a [Lexeme]) -> (r: Self)
        ensures
            r.wf(),
            r.items() == lexemes_view(lexemes@),
            r.pos() == 0,
    {
        LexemeStream { lexemes, pos: 0 }
    }

    /// The position of the next lexeme to read.
    pub fn position(&self) -> (r: usize)
        ensures
            r == self.pos(),
    {
        self.pos
    }

    /// Reads the next lexeme: returns it with its position and moves past it; at the end,
    /// returns `None` and stays.
    pub fn next(&mut self) -> (r: Option<(usize, &'a Lexeme)>)
        requires
            old(self).wf(),
        ensures
            final(self).wf(),
            final(self).items() == old(self).items(),
            old(self).pos() < old(self).items().len() ==> (r matches Some((i, l)) && i
                == old(self).pos() && l@ == old(self).items()[old(self).pos()] && final(self).pos()
                == old(self).pos() + 1),
            old(self).pos() >= old(self).items().len() ==> r is None && final(self).pos() == old(
                self,
            ).pos(),
    {
        if self.pos < self.lexemes.len() {
            let i = self.pos;
            self.pos = self.pos + 1;
            Some((i, &self.lexemes[i]))
        } else {
            None
        }
    }

    /// Moves back (or forward) to position `p`.
    pub fn set_position(&mut self, p: usize)
        requires
            old(self).wf(),
            p <= old(self).items().len(),
        ensures
            final(self).wf(),
            final(self).items() == old(self).items(),
            final(self).pos() == p,
    {
        self.pos = p;
    }
}

} // verus!

use crate::text::{chars_of, is_space, is_whitespace};
use vstd::prelude::*;

verus! {

/// The texts that a sequence of character vectors holds.
pub open spec fn texts(items: Seq<Vec<char>>) -> Seq<Seq<char>> {
    Seq::new(items.len(), |i: int| items[i]@)
}

/// The lexemes of a source text: its longest runs of characters that are not
/// white space, in order.
pub open spec fn lexemes(source: Seq<char>) -> Seq<Seq<char>>
    decreases source.len(),
{
    if source.len() == 0 {
        Seq::empty()
    } else {
        let before = lexemes(source.drop_last());
        let c = source.last();
        if is_space(c) {
            before
        } else if source.len() >= 2 && !is_space(source[source.len() - 2]) {
            before.drop_last().push(before.last().push(c))
        } else {
            before.push(seq![c])
        }
    }
}

/// The parts of a lexeme: what stands before, between and after its dots.
/// A lexeme with `n` dots has `n + 1` parts, some of which may be empty.
pub open spec fn token_parts(lexeme: Seq<char>) -> Seq<Seq<char>>
    decreases lexeme.len(),
{
    if lexeme.len() == 0 {
        seq![Seq::empty()]
    } else {
        let before = token_parts(lexeme.drop_last());
        let c = lexeme.last();
        if c == '.' {
            before.push(Seq::empty())
        } else {
            before.drop_last().push(before.last().push(c))
        }
    }
}

/// Every lexeme has a first part.
pub proof fn lemma_token_has_parts(lexeme: Seq<char>)
    ensures
        token_parts(lexeme).len() >= 1,
    decreases lexeme.len(),
{
    if lexeme.len() > 0 {
        lemma_token_has_parts(lexeme.drop_last());
    }
}

/// No lexeme is empty and none holds white space. A source that ends in
/// another character has a lexeme.
pub proof fn lemma_lexemes_are_words(source: Seq<char>)
    ensures
        forall|i: int|
            0 <= i < lexemes(source).len() ==> (#[trigger] lexemes(source)[i]).len() >= 1,
        forall|i: int, j: int|
            0 <= i < lexemes(source).len() && 0 <= j < lexemes(source)[i].len() ==> !is_space(
                #[trigger] lexemes(source)[i][j],
            ),
        source.len() >= 1 && !is_space(source.last()) ==> lexemes(source).len() >= 1,
    decreases source.len(),
{
    if source.len() > 0 {
        let shorter = source.drop_last();
        lemma_lexemes_are_words(shorter);
        let before = lexemes(shorter);
        let c = source.last();
        let words = lexemes(source);
        if is_space(c) {
        } else if source.len() >= 2 && !is_space(source[source.len() - 2]) {
            assert(shorter.last() == source[source.len() - 2]);
            let grown = before.last().push(c);
            assert(words == before.drop_last().push(grown));
            assert forall|i: int, j: int|
                0 <= i < words.len() && 0 <= j < words[i].len() implies !is_space(
                #[trigger] words[i][j],
            ) by {
                if i < words.len() - 1 {
                    assert(words[i] == before[i]);
                } else if j < grown.len() - 1 {
                    assert(words[i][j] == before[i][j]);
                }
            }
            assert forall|i: int| 0 <= i < words.len() implies (#[trigger] words[i]).len() >= 1 by {
                if i < words.len() - 1 {
                    assert(words[i] == before[i]);
                }
            }
        } else {
            assert(words == before.push(seq![c]));
            assert forall|i: int, j: int|
                0 <= i < words.len() && 0 <= j < words[i].len() implies !is_space(
                #[trigger] words[i][j],
            ) by {
                if i < words.len() - 1 {
                    assert(words[i] == before[i]);
                }
            }
            assert forall|i: int| 0 <= i < words.len() implies (#[trigger] words[i]).len() >= 1 by {
                if i < words.len() - 1 {
                    assert(words[i] == before[i]);
                }
            }
        }
    }
}

/// Whether a text can be a lexeme: it is not empty and holds no white space.
pub open spec fn is_lexeme(text: Seq<char>) -> bool {
    text.len() >= 1 && forall|i: int| 0 <= i < text.len() ==> !is_space(#[trigger] text[i])
}

/// Such a text is its own single lexeme.
pub proof fn lemma_lexemes_of_word(word: Seq<char>)
    requires
        is_lexeme(word),
    ensures
        lexemes(word) == seq![word],
    decreases word.len(),
{
    let shorter = word.drop_last();
    assert(!is_space(word[word.len() - 1]));
    if word.len() == 1 {
        assert(lexemes(shorter) == Seq::<Seq<char>>::empty());
        assert(seq![word.last()] == word);
    } else {
        assert forall|i: int| 0 <= i < shorter.len() implies !is_space(#[trigger] shorter[i]) by {
            assert(shorter[i] == word[i]);
        }
        lemma_lexemes_of_word(shorter);
        assert(!is_space(word[word.len() - 2]));
        assert(shorter.push(word.last()) == word);
        assert(seq![shorter].drop_last().push(word) =~= seq![word]);
    }
}

/// The lexemes of two texts with white space between them are those of the
/// first text, then those of the second.
pub proof fn lemma_lexemes_across_space(first: Seq<char>, space: char, second: Seq<char>)
    requires
        is_space(space),
    ensures
        lexemes(first.push(space) + second) == lexemes(first) + lexemes(second),
    decreases second.len(),
{
    let whole = first.push(space) + second;
    if second.len() == 0 {
        assert(whole == first.push(space));
        assert(whole.drop_last() == first);
        assert(lexemes(first) + lexemes(second) == lexemes(first));
    } else {
        let shorter = second.drop_last();
        let c = second.last();
        lemma_lexemes_across_space(first, space, shorter);
        lemma_lexemes_are_words(shorter);
        assert(whole.drop_last() == first.push(space) + shorter);
        assert(whole.last() == c);
        let before = lexemes(first) + lexemes(shorter);
        if is_space(c) {
        } else if shorter.len() >= 1 && !is_space(shorter.last()) {
            assert(whole[whole.len() - 2] == shorter.last());
            assert(second[second.len() - 2] == shorter.last());
            let grown = lexemes(shorter).last().push(c);
            assert(before.drop_last().push(before.last().push(c)) =~= lexemes(first) + lexemes(
                shorter,
            ).drop_last().push(grown));
        } else {
            if shorter.len() >= 1 {
                assert(whole[whole.len() - 2] == shorter.last());
                assert(second[second.len() - 2] == shorter.last());
            } else {
                assert(whole[whole.len() - 2] == space);
            }
            assert(before.push(seq![c]) =~= lexemes(first) + lexemes(shorter).push(seq![c]));
        }
    }
}

/// The words written one after the other, with a space between each two.
pub open spec fn spaced(words: Seq<Seq<char>>) -> Seq<char>
    decreases words.len(),
{
    if words.len() == 0 {
        Seq::empty()
    } else if words.len() == 1 {
        words[0]
    } else {
        spaced(words.drop_last()).push(' ') + words.last()
    }
}

/// Words that can be lexemes are the lexemes of the text that they are
/// written as.
pub proof fn lemma_lexemes_of_spaced(words: Seq<Seq<char>>)
    requires
        forall|i: int| 0 <= i < words.len() ==> is_lexeme(#[trigger] words[i]),
    ensures
        lexemes(spaced(words)) == words,
    decreases words.len(),
{
    if words.len() == 1 {
        lemma_lexemes_of_word(words[0]);
        assert(seq![words[0]] =~= words);
    } else if words.len() >= 2 {
        let shorter = words.drop_last();
        assert forall|i: int| 0 <= i < shorter.len() implies is_lexeme(#[trigger] shorter[i]) by {
            assert(shorter[i] == words[i]);
        }
        lemma_lexemes_of_spaced(shorter);
        assert(is_lexeme(words[words.len() - 1]));
        lemma_lexemes_of_word(words.last());
        lemma_lexemes_across_space(spaced(shorter), ' ', words.last());
        assert(shorter + seq![words.last()] =~= words);
    }
}

/// The parts of a token written one after the other, with a dot between
/// each two.
pub open spec fn dotted(parts: Seq<Seq<char>>) -> Seq<char>
    decreases parts.len(),
{
    if parts.len() == 0 {
        Seq::empty()
    } else if parts.len() == 1 {
        parts[0]
    } else {
        dotted(parts.drop_last()).push('.') + parts.last()
    }
}

/// No part of a lexeme holds a dot, and the parts with dots between them
/// spell the lexeme.
pub proof fn lemma_parts_spell_lexeme(lexeme: Seq<char>)
    ensures
        dotted(token_parts(lexeme)) == lexeme,
        forall|i: int, j: int|
            0 <= i < token_parts(lexeme).len() && 0 <= j < token_parts(lexeme)[i].len()
                ==> #[trigger] token_parts(lexeme)[i][j] != '.',
    decreases lexeme.len(),
{
    let parts = token_parts(lexeme);
    if lexeme.len() == 0 {
        assert(dotted(parts) == parts[0]);
    } else {
        let shorter = lexeme.drop_last();
        lemma_parts_spell_lexeme(shorter);
        lemma_token_has_parts(shorter);
        let before = token_parts(shorter);
        let c = lexeme.last();
        assert(shorter.push(c) == lexeme);
        if c == '.' {
            assert(parts == before.push(Seq::empty()));
            assert(parts.drop_last() == before);
            assert(dotted(parts) == dotted(before).push('.') + Seq::<char>::empty());
            assert(dotted(parts) == shorter.push('.'));
            assert forall|i: int, j: int|
                0 <= i < parts.len() && 0 <= j < parts[i].len() implies #[trigger] parts[i][j]
                != '.' by {
                assert(parts[i] == before[i]);
            }
        } else {
            let grown = before.last().push(c);
            assert(parts == before.drop_last().push(grown));
            assert(parts.drop_last() == before.drop_last());
            if before.len() == 1 {
                assert(dotted(before) == before[0]);
                assert(dotted(parts) == grown);
            } else {
                assert(dotted(parts) == dotted(before.drop_last()).push('.') + grown);
                assert(dotted(before) == dotted(before.drop_last()).push('.') + before.last());
                assert(dotted(before.drop_last()).push('.') + grown == (dotted(
                    before.drop_last(),
                ).push('.') + before.last()).push(c));
            }
            assert forall|i: int, j: int|
                0 <= i < parts.len() && 0 <= j < parts[i].len() implies #[trigger] parts[i][j]
                != '.' by {
                if i < parts.len() - 1 {
                    assert(parts[i] == before[i]);
                } else if j < grown.len() - 1 {
                    assert(parts[i][j] == before[i][j]);
                }
            }
        }
    }
}

/// The token at `pos`, or `None` at and after the end.
pub open spec fn token_at(lexemes: Seq<Seq<char>>, pos: int) -> Option<Seq<Seq<char>>> {
    if 0 <= pos < lexemes.len() {
        Some(token_parts(lexemes[pos]))
    } else {
        None
    }
}

/// Splits a source text into its lexemes.
pub fn split_lexemes(source: &Vec<char>) -> (tokens: Vec<Vec<char>>)
    ensures
        texts(tokens@) == lexemes(source@),
{
    let mut tokens: Vec<Vec<char>> = Vec::new();
    let mut word: Vec<char> = Vec::new();
    let mut i: usize = 0;
    assert(texts(tokens@) == lexemes(source@.take(0)));
    while i < source.len()
        invariant
            i <= source.len(),
            word.len() > 0 <==> (i > 0 && !is_space(source[i - 1])),
            lexemes(source@.take(i as int)) == if word.len() > 0 {
                texts(tokens@).push(word@)
            } else {
                texts(tokens@)
            },
        decreases source.len() - i,
    {
        let c = source[i];
        proof {
            let longer = source@.take(i + 1);
            assert(longer.drop_last() == source@.take(i as int));
            assert(longer.last() == c);
            if i > 0 {
                assert(longer[longer.len() - 2] == source[i - 1]);
            }
        }
        if is_whitespace(c) {
            if word.len() > 0 {
                let ghost done = texts(tokens@);
                tokens.push(word);
                word = Vec::new();
                assert(texts(tokens@) == done.push(tokens@.last()@));
            }
        } else {
            let ghost before = lexemes(source@.take(i as int));
            let ghost old_word = word@;
            word.push(c);
            proof {
                if old_word.len() > 0 {
                    assert(before.drop_last() == texts(tokens@));
                    assert(before.last() == old_word);
                } else {
                    assert(word@ == seq![c]);
                }
            }
        }
        i += 1;
    }
    assert(source@.take(i as int) == source@);
    if word.len() > 0 {
        let ghost done = texts(tokens@);
        tokens.push(word);
        assert(texts(tokens@) == done.push(tokens@.last()@));
    }
    tokens
}

/// Splits a lexeme into its parts, which replace what `parts` held.
pub fn parse_token(lexeme: &Vec<char>, parts: &mut Vec<Vec<char>>)
    ensures
        texts(final(parts)@) == token_parts(lexeme@),
{
    parts.clear();
    let mut word: Vec<char> = Vec::new();
    let mut i: usize = 0;
    assert(texts(parts@).push(word@) == token_parts(lexeme@.take(0)));
    while i < lexeme.len()
        invariant
            i <= lexeme.len(),
            token_parts(lexeme@.take(i as int)) == texts(parts@).push(word@),
        decreases lexeme.len() - i,
    {
        let c = lexeme[i];
        proof {
            let longer = lexeme@.take(i + 1);
            assert(longer.drop_last() == lexeme@.take(i as int));
            assert(longer.last() == c);
        }
        let ghost done = texts(parts@);
        let ghost old_word = word@;
        if c == '.' {
            parts.push(word);
            word = Vec::new();
            assert(texts(parts@) == done.push(old_word));
        } else {
            word.push(c);
            assert(done.push(old_word).drop_last() == done);
        }
        i += 1;
    }
    assert(lexeme@.take(i as int) == lexeme@);
    let ghost done = texts(parts@);
    parts.push(word);
    assert(texts(parts@) == done.push(parts@.last()@));
}

/// A cursor over the tokens of a source text.
#[derive(Debug)]
pub struct TokenStream {
    tokens: Vec<Vec<char>>,
    current: Vec<Vec<char>>,
    pos: usize,
    temp: Vec<Vec<char>>,
}

impl TokenStream {
    /// The lexemes of the source that this stream was made from.
    pub closed spec fn lexemes(&self) -> Seq<Seq<char>> {
        texts(self.tokens@)
    }

    /// The index of the current lexeme.
    pub closed spec fn position(&self) -> int {
        self.pos as int
    }

    /// The position never passes the end, and before the end the cached
    /// token is the one at the position.
    pub closed spec fn wf(&self) -> bool {
        &&& self.pos <= self.tokens.len()
        &&& self.pos < self.tokens.len() ==> texts(self.current@) == token_parts(
            texts(self.tokens@)[self.pos as int],
        )
    }

    /// The token at the position, or `None` at the end.
    pub open spec fn current_token(&self) -> Option<Seq<Seq<char>>> {
        token_at(self.lexemes(), self.position())
    }

    /// The position of a well-formed stream lies within the source or at
    /// its end.
    pub proof fn lemma_position_in_range(&self)
        requires
            self.wf(),
        ensures
            0 <= self.position() <= self.lexemes().len(),
    {
    }

    /// A stream over the lexemes of `source`, at position 0.
    pub fn new(source: &str) -> (stream: Self)
        ensures
            stream.wf(),
            stream.lexemes() == lexemes(source@),
            stream.position() == 0,
    {
        let chars = chars_of(source);
        let tokens = split_lexemes(&chars);
        let mut current: Vec<Vec<char>> = Vec::new();
        if tokens.len() > 0 {
            parse_token(&tokens[0], &mut current);
        }
        TokenStream { tokens, current, pos: 0, temp: Vec::new() }
    }

    /// The position of the current token in this stream.
    pub fn pos(&self) -> (pos: usize)
        ensures
            pos == self.position(),
    {
        self.pos
    }

    /// Whether all tokens of this stream have been read.
    pub fn eof(&self) -> (at_end: bool)
        requires
            self.wf(),
        ensures
            at_end == (self.position() == self.lexemes().len()),
    {
        self.pos == self.tokens.len()
    }

    /// The token at the current position, or `None` once all tokens have been read.
    pub fn read(&self) -> (token: Option<&Vec<Vec<char>>>)
        requires
            self.wf(),
        ensures
            match token {
                Some(parts) => self.current_token() == Some(texts(parts@)) && parts.len() >= 1,
                None => self.current_token().is_none(),
            },
    {
        if self.eof() {
            None
        } else {
            proof {
                lemma_token_has_parts(self.lexemes()[self.position()]);
            }
            Some(&self.current)
        }
    }

    /// The token at `pos`, which is the current position or an earlier one.
    pub fn read_at(&mut self, pos: usize) -> (token: Option<&Vec<Vec<char>>>)
        requires
            old(self).wf(),
            pos <= old(self).position(),
        ensures
            final(self).wf(),
            final(self).lexemes() == old(self).lexemes(),
            final(self).position() == old(self).position(),
            match token {
                Some(parts) => token_at(old(self).lexemes(), pos as int) == Some(texts(parts@))
                    && parts.len() >= 1,
                None => token_at(old(self).lexemes(), pos as int).is_none(),
            },
    {
        if pos == self.pos {
            self.read()
        } else {
            parse_token(&self.tokens[pos], &mut self.temp);
            proof {
                lemma_token_has_parts(self.lexemes()[pos as int]);
            }
            Some(&self.temp)
        }
    }

    /// Moves to the next token. At the end of the stream this does nothing.
    pub fn advance(&mut self)
        requires
            old(self).wf(),
        ensures
            final(self).wf(),
            final(self).lexemes() == old(self).lexemes(),
            final(self).position() == if old(self).position() < old(self).lexemes().len() {
                old(self).position() + 1
            } else {
                old(self).position()
            },
    {
        if !self.eof() {
            self.pos += 1;
            if self.pos < self.tokens.len() {
                parse_token(&self.tokens[self.pos], &mut self.current);
            }
        }
    }
}

} // verus!

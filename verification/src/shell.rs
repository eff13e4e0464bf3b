//! How a POSIX shell reads a command line made of plain and quoted words.
//!
//! The reader covers what the library writes: ordinary characters, single
//! quotes, backslash escapes and spaces. Any other character that stands
//! outside quotes, and so could mean something to a shell, spoils the line.
use vstd::prelude::*;

use crate::text;

verus! {

/// A shell half-way through a line.
#[verifier::ext_equal]
pub struct Reader {
    /// Inside single quotes.
    pub quoted: bool,
    /// Behind a backslash outside quotes.
    pub escaped: bool,
    /// A word has begun, be it an empty quoted one.
    pub open: bool,
    pub word: Seq<char>,
    pub words: Seq<Seq<char>>,
    /// A character stood outside quotes that a shell would not take literally.
    pub spoilt: bool,
}

/// A shell at the start of a line.
pub open spec fn fresh() -> Reader {
    Reader {
        quoted: false,
        escaped: false,
        open: false,
        word: seq![],
        words: seq![],
        spoilt: false,
    }
}

/// A character that a shell takes literally outside quotes.
pub open spec fn is_ordinary(c: char) -> bool {
    text::is_alnum(c) || c == '-' || c == '_' || c == '.' || c == '/' || c == ':' || c == '=' || c
        == '@' || c == ','
}

/// The shell after one more character.
pub open spec fn step(r: Reader, c: char) -> Reader {
    if r.quoted {
        if c == '\'' {
            Reader { quoted: false, ..r }
        } else {
            Reader { word: r.word.push(c), ..r }
        }
    } else if r.escaped {
        Reader { escaped: false, word: r.word.push(c), ..r }
    } else if c == '\'' {
        Reader { quoted: true, open: true, ..r }
    } else if c == '\\' {
        Reader { escaped: true, open: true, ..r }
    } else if c == ' ' {
        if r.open {
            Reader { open: false, word: seq![], words: r.words.push(r.word), ..r }
        } else {
            r
        }
    } else if is_ordinary(c) {
        Reader { open: true, word: r.word.push(c), ..r }
    } else {
        Reader { spoilt: true, ..r }
    }
}

/// The shell after the characters `s`.
pub open spec fn read(r: Reader, s: Seq<char>) -> Reader
    decreases s.len(),
{
    if s.len() == 0 {
        r
    } else {
        step(read(r, s.drop_last()), s.last())
    }
}

/// The words that a shell makes of a line, if all of it is taken literally.
pub open spec fn shell_words(s: Seq<char>) -> Option<Seq<Seq<char>>> {
    let r = read(fresh(), s);
    if r.quoted || r.escaped || r.spoilt {
        None
    } else if r.open {
        Some(r.words.push(r.word))
    } else {
        Some(r.words)
    }
}

/// Reading one text and then another is reading the two as one.
pub proof fn lemma_read_concat(r: Reader, a: Seq<char>, b: Seq<char>)
    ensures
        read(r, a + b) == read(read(r, a), b),
    decreases b.len(),
{
    if b.len() == 0 {
        assert(a + b =~= a);
    } else {
        lemma_read_concat(r, a, b.drop_last());
        assert((a + b).drop_last() =~= a + b.drop_last());
    }
}

/// Reading one character.
pub proof fn lemma_read_one(r: Reader, c: char)
    ensures
        read(r, seq![c]) == step(r, c),
{
    assert(seq![c].drop_last() =~= seq![]);
    reveal_with_fuel(read, 2);
}

/// Ordinary characters lengthen the current word by themselves.
pub proof fn lemma_read_ordinary(r: Reader, s: Seq<char>)
    requires
        !r.quoted,
        !r.escaped,
        s.len() > 0,
        forall|i: int| 0 <= i < s.len() ==> is_ordinary(s[i]),
    ensures
        read(r, s) == (Reader { open: true, word: r.word + s, ..r }),
    decreases s.len(),
{
    if s.len() == 1 {
        assert(s =~= seq![s[0]]);
        lemma_read_one(r, s[0]);
        assert(r.word + s =~= r.word.push(s[0]));
    } else {
        lemma_read_ordinary(r, s.drop_last());
        assert(r.word + s =~= (r.word + s.drop_last()).push(s.last()));
    }
}

/// The shell behind some words, the last of which may go on.
pub open spec fn behind(words: Seq<Seq<char>>) -> Reader {
    Reader { open: true, word: words.last(), words: words.drop_last(), ..fresh() }
}

/// Behind a space, a word of ordinary characters is one word more.
pub proof fn lemma_next_word(words: Seq<Seq<char>>, w: Seq<char>)
    requires
        words.len() > 0,
        w.len() > 0,
        forall|i: int| 0 <= i < w.len() ==> is_ordinary(#[trigger] w[i]),
    ensures
        read(behind(words), " "@ + w) == behind(words.push(w)),
{
    reveal_strlit(" ");
    assert(" "@ =~= seq![' ']);
    lemma_read_concat(behind(words), " "@, w);
    lemma_read_one(behind(words), ' ');
    lemma_read_ordinary(step(behind(words), ' '), w);
    assert(seq![] + w =~= w);
    assert(words.drop_last().push(words.last()) =~= words.push(w).drop_last());
}

} // verus!

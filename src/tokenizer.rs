//! Splitting a track name into catalogue index, title and artist.
//!
//! The name is cut at its first `.`, split into words at underscores and white
//! space, and the words are classified one by one by a small state machine: the
//! index runs up to and including the first word with a digit (and over any
//! further words that are not all upper case), an upper-case run forms the
//! title, and everything after it is the artist.

use vstd::prelude::*;
use crate::text::{
    is_digit, is_white, is_alpha, is_upper, lower_of, find_char, char_is_digit, char_is_white,
    char_is_alpha, char_is_upper, chars_of, position_of, slice_chars, string_of, lowercase, views,
    lemma_views_push,
};

verus! {

/// A character that separates the words of a track name.
pub open spec fn is_word_sep(c: char) -> bool {
    c == '_' || is_white(c)
}

/// The finished words and the word in progress after reading `s`.
pub open spec fn scan_words(s: Seq<char>) -> (Seq<Seq<char>>, Seq<char>)
    decreases s.len(),
{
    if s.len() == 0 {
        (seq![], seq![])
    } else {
        let (done, cur) = scan_words(s.drop_last());
        if is_word_sep(s.last()) {
            if cur.len() > 0 {
                (done.push(cur), seq![])
            } else {
                (done, cur)
            }
        } else {
            (done, cur.push(s.last()))
        }
    }
}

/// The non-empty runs of non-separator characters of `s`, in order.
pub open spec fn words(s: Seq<char>) -> Seq<Seq<char>> {
    let (done, cur) = scan_words(s);
    if cur.len() > 0 {
        done.push(cur)
    } else {
        done
    }
}

/// A track name up to its first `.`: extension and version suffixes go.
pub open spec fn stem(s: Seq<char>) -> Seq<char> {
    s.subrange(0, find_char(s, '.'))
}

/// The words of a track name.
pub open spec fn name_tokens(s: Seq<char>) -> Seq<Seq<char>> {
    words(stem(s))
}

/// Whether a word holds an ASCII digit.
pub open spec fn has_digit(t: Seq<char>) -> bool {
    exists|i: int| 0 <= i < t.len() && is_digit(t[i])
}

/// Whether a word has a letter and all its letters are upper case.
pub open spec fn is_upper_token(t: Seq<char>) -> bool {
    &&& exists|i: int| 0 <= i < t.len() && is_alpha(t[i])
    &&& forall|i: int| 0 <= i < t.len() && is_alpha(t[i]) ==> is_upper(t[i])
}

/// The parts of `toks` with `sep` between each two.
pub open spec fn join(toks: Seq<Seq<char>>, sep: char) -> Seq<char>
    decreases toks.len(),
{
    if toks.len() == 0 {
        seq![]
    } else if toks.len() == 1 {
        toks[0]
    } else {
        join(toks.drop_last(), sep).push(sep) + toks.last()
    }
}

/// Where the classifier stands between two words.
#[derive(Clone, Copy, Debug, PartialEq, Eq, Structural)]
pub enum TokenState {
    BeforeDigit,
    AfterDigitBeforeTitle,
    Title,
    Artist,
}

/// The field that a word goes to.
#[derive(Clone, Copy, Debug, PartialEq, Eq, Structural)]
pub enum Slot {
    Index,
    Title,
    Artist,
}

/// One step of the classifier: the next state and the field of the word.
pub open spec fn step(st: TokenState, t: Seq<char>) -> (TokenState, Slot) {
    match st {
        TokenState::BeforeDigit => {
            if has_digit(t) {
                (TokenState::AfterDigitBeforeTitle, Slot::Index)
            } else {
                (TokenState::BeforeDigit, Slot::Index)
            }
        },
        TokenState::AfterDigitBeforeTitle => {
            if is_upper_token(t) {
                (TokenState::Title, Slot::Title)
            } else {
                (TokenState::AfterDigitBeforeTitle, Slot::Index)
            }
        },
        TokenState::Title => {
            if is_upper_token(t) {
                (TokenState::Title, Slot::Title)
            } else {
                (TokenState::Artist, Slot::Artist)
            }
        },
        TokenState::Artist => (TokenState::Artist, Slot::Artist),
    }
}

/// The words of each field after classifying `toks`.
pub struct Classified {
    pub state: TokenState,
    pub index: Seq<Seq<char>>,
    pub title: Seq<Seq<char>>,
    pub artist: Seq<Seq<char>>,
}

/// The classifier run over `toks` from `BeforeDigit`.
pub open spec fn classify(toks: Seq<Seq<char>>) -> Classified
    decreases toks.len(),
{
    if toks.len() == 0 {
        Classified { state: TokenState::BeforeDigit, index: seq![], title: seq![], artist: seq![] }
    } else {
        let c = classify(toks.drop_last());
        let t = toks.last();
        let (st, slot) = step(c.state, t);
        match slot {
            Slot::Index => Classified { state: st, index: c.index.push(t), ..c },
            Slot::Title => Classified { state: st, title: c.title.push(t), ..c },
            Slot::Artist => Classified { state: st, artist: c.artist.push(t), ..c },
        }
    }
}

/// A text lowered to lower case; the empty text stays empty.
pub open spec fn lowered(s: Seq<char>) -> Seq<char> {
    if s.len() == 0 {
        seq![]
    } else {
        lower_of(s)
    }
}

/// Index, title and artist of a track name, in lower case.
pub open spec fn track_fields(name: Seq<char>) -> (Seq<char>, Seq<char>, Seq<char>) {
    let c = classify(name_tokens(name));
    (lowered(join(c.index, '_')), lowered(join(c.title, ' ')), lowered(join(c.artist, ' ')))
}

/// Whether some word of a track name holds a digit, so that it has an index.
pub open spec fn has_index(name: Seq<char>) -> bool {
    exists|i: int| 0 <= i < name_tokens(name).len() && has_digit(#[trigger] name_tokens(name)[i])
}

impl TokenState {
    /// One step of the classifier on the word `t`.
    pub fn step(self, t: &Vec<char>) -> (r: (TokenState, Slot))
        ensures
            r == step(self, t@),
    {
        match self {
            TokenState::BeforeDigit => {
                if word_has_digit(t) {
                    (TokenState::AfterDigitBeforeTitle, Slot::Index)
                } else {
                    (TokenState::BeforeDigit, Slot::Index)
                }
            },
            TokenState::AfterDigitBeforeTitle => {
                if word_is_upper(t) {
                    (TokenState::Title, Slot::Title)
                } else {
                    (TokenState::AfterDigitBeforeTitle, Slot::Index)
                }
            },
            TokenState::Title => {
                if word_is_upper(t) {
                    (TokenState::Title, Slot::Title)
                } else {
                    (TokenState::Artist, Slot::Artist)
                }
            },
            TokenState::Artist => (TokenState::Artist, Slot::Artist),
        }
    }
}

/// Whether a word holds an ASCII digit.
pub fn word_has_digit(t: &Vec<char>) -> (r: bool)
    ensures
        r == has_digit(t@),
{
    let mut i: usize = 0;
    while i < t.len()
        invariant
            i <= t@.len(),
            forall|j: int| 0 <= j < i ==> !is_digit(t@[j]),
        decreases t@.len() - i,
    {
        if char_is_digit(t[i]) {
            return true;
        }
        i = i + 1;
    }
    false
}

/// Whether a word has a letter and all its letters are upper case.
pub fn word_is_upper(t: &Vec<char>) -> (r: bool)
    ensures
        r == is_upper_token(t@),
{
    let mut any_alpha = false;
    let mut i: usize = 0;
    while i < t.len()
        invariant
            i <= t@.len(),
            any_alpha == exists|j: int| 0 <= j < i && is_alpha(t@[j]),
            forall|j: int| 0 <= j < i && is_alpha(t@[j]) ==> is_upper(t@[j]),
        decreases t@.len() - i,
    {
        if char_is_alpha(t[i]) {
            if !char_is_upper(t[i]) {
                return false;
            }
            any_alpha = true;
        }
        i = i + 1;
    }
    any_alpha
}

proof fn lemma_join_push(toks: Seq<Seq<char>>, t: Seq<char>, sep: char)
    ensures
        join(toks.push(t), sep) == (if toks.len() == 0 {
            t
        } else {
            join(toks, sep).push(sep) + t
        }),
{
    assert(toks.push(t).drop_last() =~= toks);
}

/// The words of `s` (see `words`).
pub fn split_words(s: &Vec<char>) -> (r: Vec<Vec<char>>)
    ensures
        views(r@) == words(s@),
{
    let mut done: Vec<Vec<char>> = Vec::new();
    let mut cur: Vec<char> = Vec::new();
    let mut i: usize = 0;
    while i < s.len()
        invariant
            i <= s@.len(),
            views(done@) == scan_words(s@.subrange(0, i as int)).0,
            cur@ == scan_words(s@.subrange(0, i as int)).1,
        decreases s@.len() - i,
    {
        let c = s[i];
        proof {
            assert(s@.subrange(0, i + 1).drop_last() =~= s@.subrange(0, i as int));
        }
        if c == '_' || char_is_white(c) {
            if cur.len() > 0 {
                proof {
                    lemma_views_push(done@, cur);
                }
                done.push(cur);
                cur = Vec::new();
            }
        } else {
            cur.push(c);
        }
        i = i + 1;
    }
    proof {
        assert(s@.subrange(0, s@.len() as int) =~= s@);
    }
    if cur.len() > 0 {
        proof {
            lemma_views_push(done@, cur);
        }
        done.push(cur);
    }
    done
}

/// Appends the word `t` to a field holding `n` words so far.
fn push_word(out: &mut Vec<char>, n: usize, sep: char, t: &Vec<char>)
    ensures
        final(out)@ == (if n == 0 {
            t@
        } else {
            old(out)@.push(sep) + t@
        }),
{
    if n == 0 {
        out.clear();
    } else {
        out.push(sep);
    }
    let mut i: usize = 0;
    let ghost base = out@;
    while i < t.len()
        invariant
            i <= t@.len(),
            out@ == base + t@.subrange(0, i as int),
        decreases t@.len() - i,
    {
        out.push(t[i]);
        i = i + 1;
    }
    proof {
        assert(t@.subrange(0, t@.len() as int) =~= t@);
        assert(n == 0 ==> base + t@ =~= t@);
    }
}

/// A text in lower case; the empty text stays empty.
pub(crate) fn lowered_string(v: &Vec<char>) -> (r: String)
    ensures
        r@ == lowered(v@),
        r@.len() == 0 <==> v@.len() == 0,
{
    if v.len() == 0 {
        String::new()
    } else {
        let s = string_of(v);
        lowercase(s.as_str())
    }
}

/// Index, title and artist of a track name, and whether it has an index.
pub(crate) fn split_track(name: &str) -> (r: (String, String, String, bool))
    ensures
        (r.0@, r.1@, r.2@) == track_fields(name@),
        r.3 == has_index(name@),
        r.3 == (classify(name_tokens(name@)).state != TokenState::BeforeDigit),
        r.0@.len() == 0 <==> join(classify(name_tokens(name@)).index, '_').len() == 0,
{
    let chars = chars_of(name);
    let k = position_of(&chars, '.');
    let base = slice_chars(&chars, 0, k);
    let toks = split_words(&base);
    let ghost tv = views(toks@);
    let mut st = TokenState::BeforeDigit;
    let mut index: Vec<char> = Vec::new();
    let mut title: Vec<char> = Vec::new();
    let mut artist: Vec<char> = Vec::new();
    let mut n_index: usize = 0;
    let mut n_title: usize = 0;
    let mut n_artist: usize = 0;
    let mut seen_digit = false;
    let mut i: usize = 0;
    while i < toks.len()
        invariant
            i <= toks@.len(),
            tv == views(toks@),
            ({
                let c = classify(tv.subrange(0, i as int));
                &&& st == c.state
                &&& index@ == join(c.index, '_')
                &&& title@ == join(c.title, ' ')
                &&& artist@ == join(c.artist, ' ')
                &&& n_index == c.index.len()
                &&& n_title == c.title.len()
                &&& n_artist == c.artist.len()
                &&& c.index.len() + c.title.len() + c.artist.len() == i
            }),
            seen_digit == (exists|j: int| 0 <= j < i && has_digit(#[trigger] tv[j])),
            seen_digit == (st != TokenState::BeforeDigit),
        decreases toks@.len() - i,
    {
        let t = &toks[i];
        let ghost prev = classify(tv.subrange(0, i as int));
        proof {
            assert(tv.subrange(0, i + 1).drop_last() =~= tv.subrange(0, i as int));
            assert(tv[i as int] == t@);
        }
        let (next, slot) = st.step(t);
        if word_has_digit(t) {
            seen_digit = true;
        }
        match slot {
            Slot::Index => {
                proof {
                    lemma_join_push(prev.index, t@, '_');
                }
                push_word(&mut index, n_index, '_', t);
                n_index = n_index + 1;
            },
            Slot::Title => {
                proof {
                    lemma_join_push(prev.title, t@, ' ');
                }
                push_word(&mut title, n_title, ' ', t);
                n_title = n_title + 1;
            },
            Slot::Artist => {
                proof {
                    lemma_join_push(prev.artist, t@, ' ');
                }
                push_word(&mut artist, n_artist, ' ', t);
                n_artist = n_artist + 1;
            },
        }
        st = next;
        i = i + 1;
    }
    proof {
        assert(tv.subrange(0, toks@.len() as int) =~= tv);
        assert(chars@.subrange(0, k as int) == stem(name@));
    }
    (lowered_string(&index), lowered_string(&title), lowered_string(&artist), seen_digit)
}

/// Splits a track name into catalogue index, title and artist, all in lower case.
///
/// The name is cut at its first `.`, split into words at underscores and white
/// space, and the words are classified as `classify` describes. Index words are
/// joined with `_`, title and artist words with a space. When no word holds a
/// digit, every word belongs to the index and title and artist are empty.
pub fn parse_track_filename(filename: &str) -> (r: (String, String, String))
    ensures
        (r.0@, r.1@, r.2@) == track_fields(filename@),
        !has_index(filename@) ==> r.0@ == lowered(join(name_tokens(filename@), '_')) && r.1@
            == Seq::<char>::empty() && r.2@ == Seq::<char>::empty(),
        !has_index(filename@) && name_tokens(filename@).len() > 0 ==> r.0@.len() > 0,
{
    let r = split_track(filename);
    proof {
        if !has_index(filename@) {
            lemma_classify_no_digit(name_tokens(filename@));
            lemma_words_nonempty(stem(filename@));
            if name_tokens(filename@).len() > 0 {
                lemma_join_nonempty(name_tokens(filename@), '_');
            }
        }
    }
    (r.0, r.1, r.2)
}

/// Without a digit in any word, every word goes to the index, in order, and the
/// classifier never leaves its first state.
pub proof fn lemma_classify_no_digit(toks: Seq<Seq<char>>)
    requires
        forall|i: int| 0 <= i < toks.len() ==> !has_digit(#[trigger] toks[i]),
    ensures
        classify(toks) == (Classified {
            state: TokenState::BeforeDigit,
            index: toks,
            title: seq![],
            artist: seq![],
        }),
    decreases toks.len(),
{
    if toks.len() > 0 {
        let p = toks.drop_last();
        assert forall|i: int| 0 <= i < p.len() implies !has_digit(#[trigger] p[i]) by {
            assert(p[i] == toks[i]);
        }
        lemma_classify_no_digit(p);
        let t = toks.last();
        assert(!has_digit(toks[toks.len() - 1]));
        assert(step(TokenState::BeforeDigit, t) == (TokenState::BeforeDigit, Slot::Index));
        assert(p.push(t) =~= toks);
        let c = classify(toks);
        assert(c.index == p.push(t));
        assert(c.title == Seq::<Seq<char>>::empty());
        assert(c.artist == Seq::<Seq<char>>::empty());
        assert(c.state == TokenState::BeforeDigit);
        assert(c.index == toks);
    } else {
        assert(classify(toks).index =~= toks);
    }
}

/// Every word is non-empty.
pub proof fn lemma_words_nonempty(s: Seq<char>)
    ensures
        forall|i: int| 0 <= i < words(s).len() ==> (#[trigger] words(s)[i]).len() > 0,
{
    lemma_scan_nonempty(s);
    let done = scan_words(s).0;
    let cur = scan_words(s).1;
    if cur.len() > 0 {
        assert forall|i: int| 0 <= i < done.push(cur).len() implies (#[trigger] done.push(
            cur,
        )[i]).len() > 0 by {
            if i < done.len() {
                assert(done.push(cur)[i] == done[i]);
            }
        }
    }
}

proof fn lemma_scan_nonempty(s: Seq<char>)
    ensures
        forall|i: int|
            0 <= i < scan_words(s).0.len() ==> (#[trigger] scan_words(s).0[i]).len() > 0,
    decreases s.len(),
{
    if s.len() > 0 {
        let p = s.drop_last();
        lemma_scan_nonempty(p);
        let done = scan_words(p).0;
        let cur = scan_words(p).1;
        if is_word_sep(s.last()) && cur.len() > 0 {
            assert forall|i: int| 0 <= i < done.push(cur).len() implies (#[trigger] done.push(
                cur,
            )[i]).len() > 0 by {
                if i < done.len() {
                    assert(done.push(cur)[i] == done[i]);
                }
            }
        }
    }
}

/// Joining at least one non-empty part gives a non-empty text.
pub proof fn lemma_join_nonempty(toks: Seq<Seq<char>>, sep: char)
    requires
        toks.len() > 0,
        forall|i: int| 0 <= i < toks.len() ==> (#[trigger] toks[i]).len() > 0,
    ensures
        join(toks, sep).len() > 0,
    decreases toks.len(),
{
    if toks.len() > 1 {
        assert(toks.last() == toks[toks.len() - 1]);
    } else {
        assert(toks[0].len() > 0);
    }
}

} // verus!

//! Lemmatisation: the text lowercased, stripped of punctuation, split into
//! words, and each word replaced by its lemma where the dictionary has one.

use vstd::prelude::*;
use vstd::std_specs::iter::IteratorSpec;
use vstd::utf8::{decode_utf8, encode_utf8, valid_utf8, partial_valid_utf8_extend_ascii_block, is_leading_byte_width_1};
use crate::text::{trim, trimmed, is_white_space, views};
use crate::word_map::WordMap;

verus! {

/// The characters the stripping pattern removes: all but ASCII letters,
/// ASCII digits and whitespace.
pub const STRIP_PATTERN: &'static str = "[^a-zA-Z0-9\\s]";

/// A dictionary line: the lemma before any `/`, then `->` and the words.
pub const LEMMA_LINE_PATTERN: &'static str = "^([^/]+)[^->]*->(.+)$";

pub open spec fn is_kept_char(c: char) -> bool {
    ||| ('a' <= c && c <= 'z')
    ||| ('A' <= c && c <= 'Z')
    ||| ('0' <= c && c <= '9')
    ||| is_white_space(c)
}

/// `s` without the characters `STRIP_PATTERN` matches.
pub open spec fn stripped(s: Seq<char>) -> Seq<char> {
    s.filter(|c: char| is_kept_char(c))
}

/// Relies on regex's `Regex::new(pattern)` and `Regex::replace_all(s, "")`:
/// for `STRIP_PATTERN`, a class of single characters (`\s` is Unicode
/// `White_Space`), every character it matches is removed.
#[verifier::external_body]
fn remove_all_matches(pattern: &str, s: &str) -> (r: String)
    requires
        pattern@ == STRIP_PATTERN@,
    ensures
        r@ == stripped(s@),
{
    regex::Regex::new(pattern).unwrap().replace_all(s, "").into_owned()
}

/// What std's `str::to_lowercase` makes of `s`.
pub uninterp spec fn lower_of(s: Seq<char>) -> Seq<char>;

/// Relies on std's `str::to_lowercase`: the result depends on the
/// characters alone.
#[verifier::external_body]
fn lowercase(s: &str) -> (r: String)
    ensures
        r@ == lower_of(s@),
{
    s.to_lowercase()
}

/// Groups 1 and 2 of the leftmost match of `pattern` in `line`, when it
/// matches and both take part.
pub uninterp spec fn regex_groups(pattern: Seq<char>, line: Seq<char>) -> Option<(Seq<char>, Seq<char>)>;

/// Relies on regex's `Regex::new(pattern)` and `Regex::captures(line)`.
#[verifier::external_body]
fn capture_groups(pattern: &str, line: &str) -> (r: Option<(String, String)>)
    requires
        pattern@ == LEMMA_LINE_PATTERN@,
    ensures
        match r {
            Some((a, b)) => regex_groups(pattern@, line@) == Some((a@, b@)),
            None => regex_groups(pattern@, line@) is None,
        },
{
    let re = regex::Regex::new(pattern).unwrap();
    re.captures(line).and_then(|c| Some((c.get(1)?.as_str().to_string(), c.get(2)?.as_str().to_string())))
}

/// The characters of `s`.
pub(crate) fn chars_of(s: &str) -> (r: Vec<char>)
    ensures
        r@ == s@,
{
    broadcast use vstd::string::axiom_spec_iter, vstd::string::next_postcondition;

    let mut it = s.chars();
    let mut r: Vec<char> = Vec::new();
    loop
        invariant
            r@ + it.remaining() == s@,
            it.decrease() is Some,
        decreases it.decrease()->0,
    {
        match it.next() {
            Some(c) => {
                r.push(c);
                assert(r@ + it.remaining() =~= s@);
            },
            None => {
                assert(r@ =~= s@);
                return r;
            },
        }
    }
}

/// Relies on std's `String: FromIterator<char>`.
#[verifier::external_body]
pub(crate) fn string_of(cs: &[char]) -> (r: String)
    ensures
        r@ == cs@,
{
    cs.iter().collect()
}

/// The utf-8 error message std gives for `bytes`.
pub uninterp spec fn utf8_error_text(bytes: Seq<u8>) -> Seq<char>;

/// Relies on std's `str::from_utf8`: it succeeds exactly on valid UTF-8,
/// with the characters the bytes encode.
#[verifier::external_body]
pub(crate) fn decode_utf8_text(bytes: &[u8]) -> (r: Result<String, String>)
    ensures
        match r {
            Ok(s) => valid_utf8(bytes@) && s@ == decode_utf8(bytes@),
            Err(m) => !valid_utf8(bytes@) && m@ == utf8_error_text(bytes@),
        },
{
    match std::str::from_utf8(bytes) {
        Ok(s) => Ok(s.to_string()),
        Err(e) => Err(e.to_string()),
    }
}

/// The pieces of `s` between occurrences of `sep`; `n` separators give
/// `n + 1` pieces.
pub open spec fn split_on(s: Seq<char>, sep: char) -> Seq<Seq<char>>
    decreases s.len(),
{
    if s.len() == 0 {
        seq![Seq::empty()]
    } else {
        let rest = split_on(s.drop_last(), sep);
        if s.last() == sep {
            rest.push(Seq::empty())
        } else {
            rest.update(rest.len() - 1, rest.last().push(s.last()))
        }
    }
}

pub(crate) proof fn lemma_split_on_nonempty(s: Seq<char>, sep: char)
    ensures
        split_on(s, sep).len() >= 1,
    decreases s.len(),
{
    if s.len() > 0 {
        lemma_split_on_nonempty(s.drop_last(), sep);
    }
}

pub fn split_chars(s: &Vec<char>, sep: char) -> (r: Vec<Vec<char>>)
    ensures
        r@.map_values(|p: Vec<char>| p@) == split_on(s@, sep),
{
    let mut pieces: Vec<Vec<char>> = Vec::new();
    let mut current: Vec<char> = Vec::new();
    let mut i: usize = 0;
    assert(s@.subrange(0, 0) =~= Seq::<char>::empty());
    while i < s.len()
        invariant
            i <= s@.len(),
            pieces@.map_values(|p: Vec<char>| p@).push(current@) == split_on(s@.subrange(0, i as int), sep),
        decreases s@.len() - i,
    {
        let ghost pre = s@.subrange(0, i as int);
        assert(s@.subrange(0, i + 1).drop_last() =~= pre);
        proof {
            lemma_split_on_nonempty(pre, sep);
        }
        if s[i] == sep {
            let done = current;
            pieces.push(done);
            current = Vec::new();
            assert(pieces@.map_values(|p: Vec<char>| p@).push(current@) =~= split_on(s@.subrange(0, i + 1), sep));
        } else {
            let ghost before = pieces@.map_values(|p: Vec<char>| p@).push(current@);
            current.push(s[i]);
            assert(pieces@.map_values(|p: Vec<char>| p@).push(current@) =~= before.update(
                before.len() - 1,
                before.last().push(s@[i as int]),
            ));
        }
        i = i + 1;
    }
    assert(s@.subrange(0, i as int) =~= s@);
    pieces.push(current);
    pieces
}

/// The bindings one dictionary line adds: each word on its right-hand side,
/// trimmed, to the trimmed lemma on its left; none for a line the pattern
/// does not match.
pub open spec fn line_bindings(m: Map<Seq<u8>, Seq<char>>, line: Seq<char>) -> Map<Seq<u8>, Seq<char>> {
    match regex_groups(LEMMA_LINE_PATTERN@, line) {
        Some((lemma, words)) => bind_words(m, split_on(words, ','), trimmed(lemma), split_on(words, ',').len() as int),
        None => m,
    }
}

pub open spec fn bind_words(m: Map<Seq<u8>, Seq<char>>, words: Seq<Seq<char>>, lemma: Seq<char>, k: int) -> Map<
    Seq<u8>,
    Seq<char>,
>
    decreases k,
{
    if 0 < k <= words.len() {
        bind_words(m, words, lemma, k - 1).insert(encode_utf8(trimmed(words[k - 1])), lemma)
    } else {
        m
    }
}

/// The dictionary the first `k` lines give; a later binding of a word wins.
pub open spec fn dictionary_of(lines: Seq<Seq<char>>, k: int) -> Map<Seq<u8>, Seq<char>>
    decreases k,
{
    if 0 < k <= lines.len() {
        line_bindings(dictionary_of(lines, k - 1), lines[k - 1])
    } else {
        Map::empty()
    }
}

/// A word to lemma dictionary, keyed by the word's UTF-8 bytes.
pub struct LemmaDictionary {
    index: WordMap<usize>,
    lemmas: Vec<String>,
}

impl LemmaDictionary {
    pub closed spec fn wf(&self) -> bool {
        &&& self.index.wf()
        &&& forall|w: Seq<u8>| #[trigger] self.index@.contains_key(w) ==> self.index@[w] < self.lemmas@.len()
    }

    pub closed spec fn view(&self) -> Map<Seq<u8>, Seq<char>> {
        Map::new(|w: Seq<u8>| self.index@.contains_key(w), |w: Seq<u8>| self.lemmas@[self.index@[w] as int]@)
    }

    pub fn new() -> (d: Self)
        ensures
            d.wf(),
            d@ == Map::<Seq<u8>, Seq<char>>::empty(),
    {
        let d = LemmaDictionary { index: WordMap::new(), lemmas: Vec::new() };
        assert(d@ =~= Map::<Seq<u8>, Seq<char>>::empty());
        d
    }

    fn bind(&mut self, word: &str, lemma_index: usize)
        requires
            old(self).wf(),
            lemma_index < old(self).lemmas@.len(),
        ensures
            final(self).wf(),
            final(self).lemmas == old(self).lemmas,
            final(self)@ == old(self)@.insert(encode_utf8(word@), old(self).lemmas@[lemma_index as int]@),
    {
        let b = word.as_bytes();
        let mut key: Vec<u8> = Vec::new();
        let mut k: usize = 0;
        while k < b.len()
            invariant
                k <= b@.len(),
                key@ == b@.subrange(0, k as int),
            decreases b@.len() - k,
        {
            key.push(b[k]);
            k = k + 1;
            assert(key@ =~= b@.subrange(0, k as int));
        }
        assert(key@ =~= b@);
        let ghost before = *self;
        self.index.insert(key, lemma_index);
        assert(self@ =~= before@.insert(encode_utf8(word@), before.lemmas@[lemma_index as int]@));
    }

    /// Adds the bindings of one dictionary line.
    pub fn add_line(&mut self, line: &str)
        requires
            old(self).wf(),
        ensures
            final(self).wf(),
            final(self)@ == line_bindings(old(self)@, line@),
    {
        if let Some((lemma, words)) = capture_groups(LEMMA_LINE_PATTERN, line) {
            let lemma_text = trim(lemma.as_str());
            self.lemmas.push(lemma_text);
            let li = self.lemmas.len() - 1;
            assert(forall|w: Seq<u8>| #[trigger] self.index@.contains_key(w) ==> self.index@[w] < self.lemmas@.len());
            assert(self@ =~= old(self)@);
            let pieces = split_chars(&chars_of(words.as_str()), ',');
            let ghost ws = split_on(words@, ',');
            let mut k: usize = 0;
            while k < pieces.len()
                invariant
                    self.wf(),
                    li < self.lemmas@.len(),
                    self.lemmas@[li as int]@ == trimmed(lemma@),
                    pieces@.map_values(|p: Vec<char>| p@) == ws,
                    k <= pieces@.len(),
                    self@ == bind_words(old(self)@, ws, trimmed(lemma@), k as int),
                decreases pieces@.len() - k,
            {
                let word = trim(string_of(pieces[k].as_slice()).as_str());
                assert(pieces@[k as int]@ == ws[k as int]);
                self.bind(word.as_str(), li);
                k = k + 1;
            }
        }
    }

    /// The dictionary that `lines` give, read in order.
    pub fn from_lines(lines: &Vec<String>) -> (d: Self)
        ensures
            d.wf(),
            d@ == dictionary_of(views(lines@), lines@.len() as int),
    {
        let mut d = Self::new();
        let mut i: usize = 0;
        while i < lines.len()
            invariant
                i <= lines@.len(),
                d.wf(),
                d@ == dictionary_of(views(lines@), i as int),
            decreases lines@.len() - i,
        {
            d.add_line(lines[i].as_str());
            i = i + 1;
        }
        d
    }

    pub fn lookup(&self, word: &[u8]) -> (r: Option<&String>)
        requires
            self.wf(),
        ensures
            match r {
                Some(l) => self@.contains_key(word@) && l@ == self@[word@],
                None => !self@.contains_key(word@),
            },
    {
        match self.index.get(word) {
            Some(i) => Some(&self.lemmas[i]),
            None => None,
        }
    }
}

/// ASCII letters and digits: what stripping leaves besides whitespace.
pub open spec fn is_word_byte(b: u8) -> bool {
    (0x61 <= b <= 0x7a) || (0x41 <= b <= 0x5a) || (0x30 <= b <= 0x39)
}

/// The maximal runs of ASCII letters and digits in `b`, in order.
pub open spec fn ascii_words(b: Seq<u8>) -> Seq<Seq<u8>>
    decreases b.len(),
{
    if b.len() == 0 {
        Seq::empty()
    } else {
        let rest = ascii_words(b.drop_last());
        if !is_word_byte(b.last()) {
            rest
        } else if b.len() >= 2 && is_word_byte(b[b.len() - 2]) {
            rest.update(rest.len() - 1, rest.last().push(b.last()))
        } else {
            rest.push(seq![b.last()])
        }
    }
}

/// A word's lemma where the dictionary has one, else the word itself.
pub open spec fn word_lemma(d: Map<Seq<u8>, Seq<char>>, w: Seq<u8>) -> Seq<char> {
    if d.contains_key(w) {
        d[w]
    } else {
        decode_utf8(w)
    }
}

/// The lemmas of `text`: lowercased, stripped of all characters but ASCII
/// letters, digits and whitespace, split on whitespace (what is left
/// between whitespace is exactly the runs of ASCII letters and digits),
/// each word looked up.
pub open spec fn lemmatised(d: Map<Seq<u8>, Seq<char>>, text: Seq<char>) -> Seq<Seq<char>> {
    ascii_words(encode_utf8(stripped(lower_of(text)))).map_values(|w: Seq<u8>| word_lemma(d, w))
}

fn is_word_byte_exec(c: u8) -> (r: bool)
    ensures
        r == is_word_byte(c),
{
    (0x61 <= c && c <= 0x7a) || (0x41 <= c && c <= 0x5a) || (0x30 <= c && c <= 0x39)
}

fn split_ascii_words(b: &[u8]) -> (r: Vec<Vec<u8>>)
    ensures
        r@.map_values(|w: Vec<u8>| w@) == ascii_words(b@),
        forall|i: int, j: int| 0 <= i < r@.len() && 0 <= j < r@[i]@.len() ==> is_word_byte(#[trigger] r@[i]@[j]),
{
    let mut words: Vec<Vec<u8>> = Vec::new();
    let mut i: usize = 0;
    assert(b@.subrange(0, 0) =~= Seq::<u8>::empty());
    while i < b.len()
        invariant
            i <= b@.len(),
            words@.map_values(|w: Vec<u8>| w@) == ascii_words(b@.subrange(0, i as int)),
            i > 0 && is_word_byte(b@[i - 1]) ==> words@.len() > 0,
            forall|x: int, y: int| 0 <= x < words@.len() && 0 <= y < words@[x]@.len() ==> is_word_byte(#[trigger] words@[x]@[y]),
        decreases b@.len() - i,
    {
        let ghost pre = b@.subrange(0, i as int);
        let ghost next = b@.subrange(0, i + 1);
        assert(next.drop_last() =~= pre);
        assert(next.last() == b@[i as int]);
        let ghost before = words@.map_values(|w: Vec<u8>| w@);
        if is_word_byte_exec(b[i]) {
            if i > 0 && is_word_byte_exec(b[i - 1]) {
                assert(next[next.len() - 2] == b@[i - 1]);
                match words.pop() {
                    Some(mut last) => {
                        last.push(b[i]);
                        words.push(last);
                    },
                    None => {},
                }
                assert(words@.map_values(|w: Vec<u8>| w@) =~= before.update(before.len() - 1, before.last().push(b@[i as int])));
            } else {
                let mut w: Vec<u8> = Vec::new();
                w.push(b[i]);
                assert(w@ =~= seq![b@[i as int]]);
                words.push(w);
                assert(words@.map_values(|w: Vec<u8>| w@) =~= before.push(seq![b@[i as int]]));
            }
        } else {
            assert(words@.map_values(|w: Vec<u8>| w@) =~= before);
        }
        i = i + 1;
    }
    assert(b@.subrange(0, i as int) =~= b@);
    words
}

proof fn lemma_ascii_is_valid_utf8(w: Seq<u8>)
    requires
        forall|j: int| 0 <= j < w.len() ==> is_word_byte(#[trigger] w[j]),
    ensures
        valid_utf8(w),
{
    assert(w.subrange(0, 0) =~= Seq::<u8>::empty());
    assert forall|j: int| 0 <= 0 <= j < w.len() <= w.len() implies #[trigger] is_leading_byte_width_1(w[j]) by {
        assert(is_word_byte(w[j]));
    }
    partial_valid_utf8_extend_ascii_block(w, 0, w.len() as int);
    assert(w.subrange(0, w.len() as int) =~= w);
}

/// The lemmas of `text`, one per word, in order, duplicates kept.
pub fn lemmatise_string(dictionary: &LemmaDictionary, text: &str) -> (r: Vec<String>)
    requires
        dictionary.wf(),
    ensures
        views(r@) == lemmatised(dictionary@, text@),
{
    let lower = lowercase(text);
    let clean = remove_all_matches(STRIP_PATTERN, lower.as_str());
    let words = split_ascii_words(clean.as_str().as_bytes());
    let ghost ws = ascii_words(encode_utf8(stripped(lower_of(text@))));
    let mut r: Vec<String> = Vec::new();
    let mut i: usize = 0;
    while i < words.len()
        invariant
            dictionary.wf(),
            words@.map_values(|w: Vec<u8>| w@) == ws,
            forall|x: int, y: int| 0 <= x < words@.len() && 0 <= y < words@[x]@.len() ==> is_word_byte(#[trigger] words@[x]@[y]),
            i <= words@.len(),
            views(r@) == ws.subrange(0, i as int).map_values(|w: Seq<u8>| word_lemma(dictionary@, w)),
        decreases words@.len() - i,
    {
        let ghost before = views(r@);
        assert(words@[i as int]@ == ws[i as int]);
        let lemma = match dictionary.lookup(words[i].as_slice()) {
            Some(l) => l.clone(),
            None => {
                proof {
                    assert forall|j: int| 0 <= j < words@[i as int]@.len() implies is_word_byte(#[trigger] words@[i as int]@[j]) by {}
                    lemma_ascii_is_valid_utf8(words@[i as int]@);
                }
                match decode_utf8_text(words[i].as_slice()) {
                    Ok(s) => s,
                    Err(_) => String::new(),
                }
            },
        };
        assert(lemma@ == word_lemma(dictionary@, ws[i as int]));
        r.push(lemma);
        assert(views(r@) =~= before.push(word_lemma(dictionary@, ws[i as int])));
        i = i + 1;
        assert(views(r@) =~= ws.subrange(0, i as int).map_values(|w: Seq<u8>| word_lemma(dictionary@, w)));
    }
    assert(ws.subrange(0, i as int) =~= ws);
    r
}

} // verus!

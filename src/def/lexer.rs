//! Tokens of module-definition text.

use vstd::prelude::*;

use crate::text::{chars_of, string_of};

verus! {

/// The kinds of token.
#[derive(Debug, Clone, Copy, PartialEq, Eq, Structural)]
pub enum TokenKind {
    Unknown,
    Eof,
    Identifier,
    Comma,
    Equal,
    EqualEqual,
    KwBase,
    KwConstant,
    KwData,
    KwExports,
    KwHeapsize,
    KwLibrary,
    KwName,
    KwNoname,
    KwPrivate,
    KwStacksize,
    KwVersion,
}

/// A token: its kind and, for all but the end of input, its text.
#[derive(Debug, Clone, PartialEq, Eq)]
pub struct Token {
    pub kind: TokenKind,
    pub value: Option<String>,
}

/// Characters with the Unicode `White_Space` property.
pub open spec fn is_white(c: char) -> bool {
    ||| '\t' <= c <= '\r'
    ||| c == ' '
    ||| c == '\u{85}'
    ||| c == '\u{a0}'
    ||| c == '\u{1680}'
    ||| '\u{2000}' <= c <= '\u{200a}'
    ||| c == '\u{2028}'
    ||| c == '\u{2029}'
    ||| c == '\u{202f}'
    ||| c == '\u{205f}'
    ||| c == '\u{3000}'
}

/// The characters that end a bare word.
pub open spec fn is_delim(c: char) -> bool {
    c == '=' || c == ',' || c == ';' || c == '\r' || c == '\n' || c == ' ' || c == '\t' || c
        == '\u{b}'
}

/// `s` without leading white space.
pub open spec fn trim_start(s: Seq<char>) -> Seq<char>
    decreases s.len(),
{
    if s.len() > 0 && is_white(s[0]) {
        trim_start(s.drop_first())
    } else {
        s
    }
}

/// `s` without trailing white space.
pub open spec fn trim_end(s: Seq<char>) -> Seq<char>
    decreases s.len(),
{
    if s.len() > 0 && is_white(s.last()) {
        trim_end(s.drop_last())
    } else {
        s
    }
}

/// `s` without leading or trailing white space.
pub open spec fn trim(s: Seq<char>) -> Seq<char> {
    trim_end(trim_start(s))
}

/// The kind of a bare word: a keyword when it spells one, else an identifier.
pub open spec fn word_kind(w: Seq<char>) -> TokenKind {
    if w == seq!['B', 'A', 'S', 'E'] {
        TokenKind::KwBase
    } else if w == seq!['C', 'O', 'N', 'S', 'T', 'A', 'N', 'T'] {
        TokenKind::KwConstant
    } else if w == seq!['D', 'A', 'T', 'A'] {
        TokenKind::KwData
    } else if w == seq!['E', 'X', 'P', 'O', 'R', 'T', 'S'] {
        TokenKind::KwExports
    } else if w == seq!['H', 'E', 'A', 'P', 'S', 'I', 'Z', 'E'] {
        TokenKind::KwHeapsize
    } else if w == seq!['L', 'I', 'B', 'R', 'A', 'R', 'Y'] {
        TokenKind::KwLibrary
    } else if w == seq!['N', 'A', 'M', 'E'] {
        TokenKind::KwName
    } else if w == seq!['N', 'O', 'N', 'A', 'M', 'E'] {
        TokenKind::KwNoname
    } else if w == seq!['P', 'R', 'I', 'V', 'A', 'T', 'E'] {
        TokenKind::KwPrivate
    } else if w == seq!['S', 'T', 'A', 'C', 'K', 'S', 'I', 'Z', 'E'] {
        TokenKind::KwStacksize
    } else if w == seq!['V', 'E', 'R', 'S', 'I', 'O', 'N'] {
        TokenKind::KwVersion
    } else {
        TokenKind::Identifier
    }
}

/// The first position at or after `i` that holds `c`, or the end.
pub open spec fn find_from(t: Seq<char>, i: int, c: char) -> int
    decreases t.len() - i,
{
    if i >= t.len() {
        t.len() as int
    } else if t[i] == c {
        i
    } else {
        find_from(t, i + 1, c)
    }
}

/// The first position at or after `i` that holds a word delimiter, or the end.
pub open spec fn delim_from(t: Seq<char>, i: int) -> int
    decreases t.len() - i,
{
    if i >= t.len() {
        t.len() as int
    } else if is_delim(t[i]) {
        i
    } else {
        delim_from(t, i + 1)
    }
}

/// A token as a value: kind, text, and the position after it.
pub type LexResult = (TokenKind, Option<Seq<char>>, int);

/// The token that starts at position `p` of `t`.
///
/// White space before a token is skipped. A `;` starts a comment running
/// through the end of the line; a `"` starts a quoted identifier running to
/// the next `"` (an unterminated quote yields an empty identifier); any
/// other character starts a word running up to the next delimiter.
pub open spec fn lex(t: Seq<char>, p: int) -> LexResult
    decreases t.len() - p,
{
    if p < 0 || p >= t.len() {
        (TokenKind::Eof, None, p)
    } else {
        let c = t[p];
        if is_white(c) {
            lex(t, p + 1)
        } else if c == '\0' {
            (TokenKind::Eof, None, p + 1)
        } else if c == ';' {
            let q = find_from(t, p + 1, '\n');
            if p < q < t.len() {
                lex(t, q + 1)
            } else {
                (TokenKind::Eof, None, t.len() as int)
            }
        } else if c == '=' {
            if p + 1 < t.len() && t[p + 1] == '=' {
                (TokenKind::EqualEqual, Some(seq!['=', '=']), p + 2)
            } else {
                (TokenKind::Equal, Some(seq!['=']), p + 1)
            }
        } else if c == ',' {
            (TokenKind::Comma, Some(seq![',']), p + 1)
        } else if c == '"' {
            let q = find_from(t, p + 1, '"');
            if q < t.len() {
                (TokenKind::Identifier, Some(trim(t.subrange(p + 1, q))), q + 1)
            } else {
                (TokenKind::Identifier, Some(seq![]), t.len() as int)
            }
        } else {
            let q = delim_from(t, p + 1);
            let w = trim(t.subrange(p, q));
            (word_kind(w), Some(w), q)
        }
    }
}

/// Whether `c` has the Unicode `White_Space` property.
fn white(c: char) -> (r: bool)
    ensures
        r == is_white(c),
{
    ('\t' <= c && c <= '\r') || c == ' ' || c == '\u{85}' || c == '\u{a0}' || c == '\u{1680}'
        || ('\u{2000}' <= c && c <= '\u{200a}') || c == '\u{2028}' || c == '\u{2029}' || c
        == '\u{202f}' || c == '\u{205f}' || c == '\u{3000}'
}

/// Whether `c` ends a bare word.
fn delim(c: char) -> (r: bool)
    ensures
        r == is_delim(c),
{
    c == '=' || c == ',' || c == ';' || c == '\r' || c == '\n' || c == ' ' || c == '\t' || c
        == '\u{b}'
}

proof fn lemma_trim_start_skip(s: Seq<char>, a: int)
    requires
        0 <= a < s.len(),
        is_white(s[a]),
    ensures
        trim_start(s.subrange(a, s.len() as int)) == trim_start(s.subrange(a + 1, s.len() as int)),
{
    assert(s.subrange(a, s.len() as int).drop_first() =~= s.subrange(a + 1, s.len() as int));
}

proof fn lemma_trim_end_skip(s: Seq<char>, b: int)
    requires
        0 < b <= s.len(),
        is_white(s[b - 1]),
    ensures
        trim_end(s.subrange(0, b)) == trim_end(s.subrange(0, b - 1)),
{
    assert(s.subrange(0, b).drop_last() =~= s.subrange(0, b - 1));
}

/// The characters of `t` from `lo` to `hi`, without leading or trailing
/// white space.
fn trimmed(t: &Vec<char>, lo: usize, hi: usize) -> (r: Vec<char>)
    requires
        lo <= hi <= t@.len(),
    ensures
        r@ == trim(t@.subrange(lo as int, hi as int)),
{
    let ghost s = t@.subrange(lo as int, hi as int);
    let mut a: usize = lo;
    assert(s.subrange(0, s.len() as int) =~= s);
    while a < hi && white(t[a])
        invariant
            lo <= a <= hi <= t@.len(),
            s == t@.subrange(lo as int, hi as int),
            trim_start(s) == trim_start(s.subrange(a - lo, s.len() as int)),
        decreases hi - a,
    {
        proof {
            assert(s[a - lo] == t@[a as int]);
            lemma_trim_start_skip(s, a - lo);
        }
        a += 1;
    }
    let ghost u = s.subrange(a - lo, s.len() as int);
    assert(u =~= t@.subrange(a as int, hi as int));
    assert(trim_start(u) == u) by {
        if u.len() > 0 {
            assert(u[0] == t@[a as int]);
        }
    }
    let mut b: usize = hi;
    assert(u.subrange(0, u.len() as int) =~= u);
    while b > a && white(t[b - 1])
        invariant
            lo <= a <= b <= hi <= t@.len(),
            u == t@.subrange(a as int, hi as int),
            trim_end(u) == trim_end(u.subrange(0, b - a)),
        decreases b - a,
    {
        proof {
            assert(u[b - a - 1] == t@[b - 1]);
            lemma_trim_end_skip(u, b - a);
        }
        b -= 1;
    }
    let ghost w = u.subrange(0, b - a);
    assert(trim_end(w) == w) by {
        if w.len() > 0 {
            assert(w.last() == t@[b - 1]);
        }
    }
    let mut r: Vec<char> = Vec::new();
    let mut i: usize = a;
    while i < b
        invariant
            a <= i <= b <= t@.len(),
            r@ == t@.subrange(a as int, i as int),
        decreases b - i,
    {
        r.push(t[i]);
        i += 1;
        assert(r@ =~= t@.subrange(a as int, i as int));
    }
    assert(r@ =~= w);
    r
}

/// Whether `w` spells `k`.
fn spells(w: &Vec<char>, k: &[char]) -> (r: bool)
    ensures
        r == (w@ == k@),
{
    if w.len() != k.len() {
        return false;
    }
    let mut i: usize = 0;
    while i < k.len()
        invariant
            i <= k@.len(),
            w@.len() == k@.len(),
            forall|j: int| 0 <= j < i ==> w@[j] == k@[j],
        decreases k@.len() - i,
    {
        if w[i] != k[i] {
            return false;
        }
        i += 1;
    }
    assert(w@ =~= k@);
    true
}

/// The kind of the bare word `w`.
fn kind_of_word(w: &Vec<char>) -> (r: TokenKind)
    ensures
        r == word_kind(w@),
{
    let base: [char; 4] = ['B', 'A', 'S', 'E'];
    let constant: [char; 8] = ['C', 'O', 'N', 'S', 'T', 'A', 'N', 'T'];
    let data: [char; 4] = ['D', 'A', 'T', 'A'];
    let exports: [char; 7] = ['E', 'X', 'P', 'O', 'R', 'T', 'S'];
    let heapsize: [char; 8] = ['H', 'E', 'A', 'P', 'S', 'I', 'Z', 'E'];
    let library: [char; 7] = ['L', 'I', 'B', 'R', 'A', 'R', 'Y'];
    let name: [char; 4] = ['N', 'A', 'M', 'E'];
    let noname: [char; 6] = ['N', 'O', 'N', 'A', 'M', 'E'];
    let private: [char; 7] = ['P', 'R', 'I', 'V', 'A', 'T', 'E'];
    let stacksize: [char; 9] = ['S', 'T', 'A', 'C', 'K', 'S', 'I', 'Z', 'E'];
    let version: [char; 7] = ['V', 'E', 'R', 'S', 'I', 'O', 'N'];
    assert(base@ =~= seq!['B', 'A', 'S', 'E']);
    assert(constant@ =~= seq!['C', 'O', 'N', 'S', 'T', 'A', 'N', 'T']);
    assert(data@ =~= seq!['D', 'A', 'T', 'A']);
    assert(exports@ =~= seq!['E', 'X', 'P', 'O', 'R', 'T', 'S']);
    assert(heapsize@ =~= seq!['H', 'E', 'A', 'P', 'S', 'I', 'Z', 'E']);
    assert(library@ =~= seq!['L', 'I', 'B', 'R', 'A', 'R', 'Y']);
    assert(name@ =~= seq!['N', 'A', 'M', 'E']);
    assert(noname@ =~= seq!['N', 'O', 'N', 'A', 'M', 'E']);
    assert(private@ =~= seq!['P', 'R', 'I', 'V', 'A', 'T', 'E']);
    assert(stacksize@ =~= seq!['S', 'T', 'A', 'C', 'K', 'S', 'I', 'Z', 'E']);
    assert(version@ =~= seq!['V', 'E', 'R', 'S', 'I', 'O', 'N']);
    if spells(w, base.as_slice()) {
        TokenKind::KwBase
    } else if spells(w, constant.as_slice()) {
        TokenKind::KwConstant
    } else if spells(w, data.as_slice()) {
        TokenKind::KwData
    } else if spells(w, exports.as_slice()) {
        TokenKind::KwExports
    } else if spells(w, heapsize.as_slice()) {
        TokenKind::KwHeapsize
    } else if spells(w, library.as_slice()) {
        TokenKind::KwLibrary
    } else if spells(w, name.as_slice()) {
        TokenKind::KwName
    } else if spells(w, noname.as_slice()) {
        TokenKind::KwNoname
    } else if spells(w, private.as_slice()) {
        TokenKind::KwPrivate
    } else if spells(w, stacksize.as_slice()) {
        TokenKind::KwStacksize
    } else if spells(w, version.as_slice()) {
        TokenKind::KwVersion
    } else {
        TokenKind::Identifier
    }
}

pub(crate) proof fn lemma_find_from_bounds(t: Seq<char>, i: int, c: char)
    requires
        0 <= i <= t.len(),
    ensures
        i <= find_from(t, i, c) <= t.len(),
        find_from(t, i, c) < t.len() ==> t[find_from(t, i, c)] == c,
    decreases t.len() - i,
{
    if i < t.len() && t[i] != c {
        lemma_find_from_bounds(t, i + 1, c);
    }
}

pub(crate) proof fn lemma_delim_from_bounds(t: Seq<char>, i: int)
    requires
        0 <= i <= t.len(),
    ensures
        i <= delim_from(t, i) <= t.len(),
    decreases t.len() - i,
{
    if i < t.len() && !is_delim(t[i]) {
        lemma_delim_from_bounds(t, i + 1);
    }
}

/// The first position at or after `i` that holds `c`, or the end.
pub(crate) fn find_char(t: &Vec<char>, i: usize, c: char) -> (r: usize)
    requires
        i <= t@.len(),
    ensures
        r == find_from(t@, i as int, c),
        i <= r <= t@.len(),
{
    proof {
        lemma_find_from_bounds(t@, i as int, c);
    }
    let mut j: usize = i;
    while j < t.len() && t[j] != c
        invariant
            i <= j <= t@.len(),
            find_from(t@, i as int, c) == find_from(t@, j as int, c),
        decreases t@.len() - j,
    {
        j += 1;
    }
    j
}

/// The first position at or after `i` that holds a word delimiter, or the end.
fn find_delim(t: &Vec<char>, i: usize) -> (r: usize)
    requires
        i <= t@.len(),
    ensures
        r == delim_from(t@, i as int),
        i <= r <= t@.len(),
{
    proof {
        lemma_delim_from_bounds(t@, i as int);
    }
    let mut j: usize = i;
    while j < t.len() && !delim(t[j])
        invariant
            i <= j <= t@.len(),
            delim_from(t@, i as int) == delim_from(t@, j as int),
        decreases t@.len() - j,
    {
        j += 1;
    }
    j
}

/// The view of an optional character vector.
pub open spec fn chars_view(o: Option<Vec<char>>) -> Option<Seq<char>> {
    match o {
        Some(v) => Some(v@),
        None => None,
    }
}

/// The view of an optional string.
pub open spec fn string_view(o: Option<String>) -> Option<Seq<char>> {
    match o {
        Some(v) => Some(v@),
        None => None,
    }
}

/// A scanner over module-definition text.
#[derive(Debug)]
pub struct Lexer {
    text: Vec<char>,
    pos: usize,
}

impl Lexer {
    /// The text being scanned.
    pub closed spec fn chars(&self) -> Seq<char> {
        self.text@
    }

    /// The position of the next token.
    pub closed spec fn position(&self) -> int {
        self.pos as int
    }

    /// The scanner's invariant.
    pub closed spec fn wf(&self) -> bool {
        self.pos <= self.text@.len()
    }

    /// A scanner at the start of `text`.
    pub fn new(text: &str) -> (r: Lexer)
        ensures
            r.wf(),
            r.chars() == text@,
            r.position() == 0,
    {
        Lexer { text: chars_of(text), pos: 0 }
    }

    /// The next token, as a kind and the characters of its text.
    pub(crate) fn scan(&mut self) -> (r: (TokenKind, Option<Vec<char>>))
        requires
            old(self).wf(),
        ensures
            final(self).wf(),
            final(self).chars() == old(self).chars(),
            lex(old(self).chars(), old(self).position()) == (r.0, chars_view(r.1), final(self).position()),
    {
        let ghost t = self.text@;
        let ghost start = self.pos as int;
        loop
            invariant
                self.wf(),
                self.text@ == t,
                t == old(self).text@,
                start == old(self).pos,
                lex(t, start) == lex(t, self.pos as int),
            decreases t.len() - self.pos,
        {
            let len = self.text.len();
            if self.pos >= len {
                return (TokenKind::Eof, None);
            }
            let p = self.pos;
            let c = self.text[p];
            if white(c) {
                self.pos = p + 1;
            } else if c == '\0' {
                self.pos = p + 1;
                return (TokenKind::Eof, None);
            } else if c == ';' {
                let q = find_char(&self.text, p + 1, '\n');
                if q < len {
                    self.pos = q + 1;
                } else {
                    self.pos = len;
                    return (TokenKind::Eof, None);
                }
            } else if c == '=' {
                if p + 1 < len && self.text[p + 1] == '=' {
                    self.pos = p + 2;
                    let v: Vec<char> = vec!['=', '='];
                    assert(v@ =~= seq!['=', '=']);
                    return (TokenKind::EqualEqual, Some(v));
                } else {
                    self.pos = p + 1;
                    let v: Vec<char> = vec!['='];
                    assert(v@ =~= seq!['=']);
                    return (TokenKind::Equal, Some(v));
                }
            } else if c == ',' {
                self.pos = p + 1;
                let v: Vec<char> = vec![','];
                assert(v@ =~= seq![',']);
                return (TokenKind::Comma, Some(v));
            } else if c == '"' {
                let q = find_char(&self.text, p + 1, '"');
                if q < len {
                    let v = trimmed(&self.text, p + 1, q);
                    self.pos = q + 1;
                    return (TokenKind::Identifier, Some(v));
                } else {
                    self.pos = len;
                    let v: Vec<char> = Vec::new();
                    assert(v@ =~= seq![]);
                    return (TokenKind::Identifier, Some(v));
                }
            } else {
                let q = find_delim(&self.text, p + 1);
                let w = trimmed(&self.text, p, q);
                self.pos = q;
                let kind = kind_of_word(&w);
                return (kind, Some(w));
            }
        }
    }

    /// The next token; the end of the text, or a NUL character, gives
    /// `Eof` (and keeps giving it at the end).
    pub fn next(&mut self) -> (r: Option<Token>)
        requires
            old(self).wf(),
        ensures
            final(self).wf(),
            final(self).chars() == old(self).chars(),
            r matches Some(tok) && lex(old(self).chars(), old(self).position()) == (
                tok.kind,
                string_view(tok.value),
                final(self).position(),
            ),
    {
        let (kind, value) = self.scan();
        let v = match value {
            Some(cs) => Some(string_of(cs.as_slice())),
            None => None,
        };
        Some(Token { kind, value: v })
    }
}

impl Lexer {
    /// The position of the next token.
    pub(crate) fn pos(&self) -> (r: usize)
        ensures
            r == self.position(),
    {
        self.pos
    }

    /// A scanner's position lies within its text.
    pub proof fn lemma_position(&self)
        requires
            self.wf(),
        ensures
            0 <= self.position() <= self.chars().len(),
    {
    }

    /// Moves back to `p`, giving back the tokens read since.
    pub(crate) fn rewind(&mut self, p: usize)
        requires
            old(self).wf(),
            p <= old(self).position(),
        ensures
            final(self).wf(),
            final(self).chars() == old(self).chars(),
            final(self).position() == p,
    {
        self.pos = p;
    }
}

/// Each token lies within the text; every token but the end moves forward,
/// and exactly those carry text.
pub proof fn lemma_lex_bounds(t: Seq<char>, p: int)
    requires
        0 <= p <= t.len(),
    ensures
        p <= lex(t, p).2 <= t.len(),
        lex(t, p).0 != TokenKind::Eof ==> p < lex(t, p).2,
        lex(t, p).1.is_some() <==> lex(t, p).0 != TokenKind::Eof,
    decreases t.len() - p,
{
    if p < t.len() {
        let c = t[p];
        if c == ';' {
            lemma_find_from_bounds(t, p + 1, '\n');
            let q = find_from(t, p + 1, '\n');
            if p < q < t.len() {
                lemma_lex_bounds(t, q + 1);
            }
        } else if c == '"' {
            lemma_find_from_bounds(t, p + 1, '"');
        } else if is_white(c) {
            lemma_lex_bounds(t, p + 1);
        } else if c != '\0' && c != '=' && c != ',' {
            lemma_delim_from_bounds(t, p + 1);
            let q = delim_from(t, p + 1);
            let w = trim(t.subrange(p, q));
            assert(word_kind(w) != TokenKind::Eof);
        }
    }
}

/// Searching in `a + t` from inside `t` finds what searching `t` finds.
pub proof fn lemma_find_from_shift(a: Seq<char>, t: Seq<char>, i: int, c: char)
    requires
        0 <= i <= t.len(),
    ensures
        find_from(a + t, a.len() + i, c) == a.len() + find_from(t, i, c),
    decreases t.len() - i,
{
    if i < t.len() {
        assert((a + t)[a.len() + i] == t[i]);
        if t[i] != c {
            lemma_find_from_shift(a, t, i + 1, c);
        }
    }
}

/// Searching for a delimiter in `a + t` from inside `t` finds what
/// searching `t` finds.
pub proof fn lemma_delim_from_shift(a: Seq<char>, t: Seq<char>, i: int)
    requires
        0 <= i <= t.len(),
    ensures
        delim_from(a + t, a.len() + i) == a.len() + delim_from(t, i),
    decreases t.len() - i,
{
    if i < t.len() {
        assert((a + t)[a.len() + i] == t[i]);
        if !is_delim(t[i]) {
            lemma_delim_from_shift(a, t, i + 1);
        }
    }
}

/// A token of `t` is the same token of `a + t`, moved by `a.len()`.
pub proof fn lemma_lex_shift(a: Seq<char>, t: Seq<char>, i: int)
    requires
        0 <= i <= t.len(),
    ensures
        lex(a + t, a.len() + i) == (lex(t, i).0, lex(t, i).1, a.len() + lex(t, i).2),
    decreases t.len() - i,
{
    let u = a + t;
    let p = a.len() + i;
    if i < t.len() {
        let c = t[i];
        assert(u[p] == c);
        if is_white(c) {
            lemma_lex_shift(a, t, i + 1);
        } else if c == ';' {
            lemma_find_from_shift(a, t, i + 1, '\n');
            lemma_find_from_bounds(t, i + 1, '\n');
            let q = find_from(t, i + 1, '\n');
            if i < q < t.len() {
                lemma_lex_shift(a, t, q + 1);
            }
        } else if c == '=' {
            if i + 1 < t.len() {
                assert(u[p + 1] == t[i + 1]);
            }
        } else if c == '"' {
            lemma_find_from_shift(a, t, i + 1, '"');
            lemma_find_from_bounds(t, i + 1, '"');
            let q = find_from(t, i + 1, '"');
            if q < t.len() {
                assert(u.subrange(p + 1, a.len() + q) =~= t.subrange(i + 1, q));
            }
        } else if c != '\0' && c != ',' {
            lemma_delim_from_shift(a, t, i + 1);
            lemma_delim_from_bounds(t, i + 1);
            let q = delim_from(t, i + 1);
            assert(u.subrange(p, a.len() + q) =~= t.subrange(i, q));
        }
    }
}

} // verus!

//! Recursive-descent parser for module-definition text.

use vstd::prelude::*;

use super::error::{Error, ErrorModel};
use super::lexer::{
    chars_view, delim_from, find_char, find_from, is_delim, is_white, lemma_lex_bounds, lex, trim,
    trim_end, trim_start, word_kind, Lexer, TokenKind, lemma_lex_shift,
};
use super::{empty_def, plain_export, DefModel, ExportModel, ModuleDef, ShortExport};
use crate::text::string_of;
use crate::MachineType;

verus! {

/// Whether `c` is an ASCII decimal digit.
pub open spec fn is_digit(c: char) -> bool {
    '0' <= c <= '9'
}

/// The value of a string of decimal digits.
pub open spec fn digits_value(s: Seq<char>) -> nat
    decreases s.len(),
{
    if s.len() == 0 {
        0
    } else {
        digits_value(s.drop_last()) * 10 + ((s.last() as u32) - 48) as nat
    }
}

/// `s` without one leading `+`.
pub open spec fn unsigned_part(s: Seq<char>) -> Seq<char> {
    if s.len() > 0 && s[0] == '+' {
        s.drop_first()
    } else {
        s
    }
}

/// Whether every character of `d` is a decimal digit.
pub open spec fn all_digits(d: Seq<char>) -> bool {
    forall|i: int| 0 <= i < d.len() ==> is_digit(#[trigger] d[i])
}

/// What `str::parse` gives for an unsigned integer type whose largest value
/// is `max`: an optional `+`, then one or more decimal digits.
pub open spec fn parse_uint(s: Seq<char>, max: nat) -> Option<nat> {
    let d = unsigned_part(s);
    if d.len() > 0 && all_digits(d) && digits_value(d) <= max {
        Some(digits_value(d))
    } else {
        None
    }
}

/// Whether a symbol name is already decorated.
pub open spec fn is_decorated(s: Seq<char>) -> bool {
    (s.len() > 0 && (s[0] == '@' || s[0] == '?')) || s.contains('@')
}

/// A name as the parser stores it: under `I386` an undecorated name gets a
/// leading `_`.
pub open spec fn decorate(machine: MachineType, s: Seq<char>) -> Seq<char> {
    if machine == MachineType::I386 && !is_decorated(s) {
        seq!['_'] + s
    } else {
        s
    }
}

/// Whether the token at `p` moves the position forward within the text.
pub open spec fn advances(t: Seq<char>, p: int) -> bool {
    p < lex(t, p).2 <= t.len()
}

/// A decimal integer token at `p`, and the position after it.
pub open spec fn int_at(t: Seq<char>, p: int, max: nat) -> Result<(nat, int), ErrorModel> {
    let (k, v, q) = lex(t, p);
    if k != TokenKind::Identifier {
        Err(ErrorModel::ExpectedIdentifier)
    } else {
        match parse_uint(v.unwrap(), max) {
            Some(n) => Ok((n, q)),
            None => Err(ErrorModel::ExpectedInteger),
        }
    }
}

/// `reserve[, commit]` at `p`.
pub open spec fn numbers_at(t: Seq<char>, p: int) -> Result<(u64, u64, int), ErrorModel> {
    match int_at(t, p, u64::MAX as nat) {
        Err(e) => Err(e),
        Ok((a, q)) => if lex(t, q).0 != TokenKind::Comma {
            Ok((a as u64, 0, q))
        } else {
            match int_at(t, lex(t, q).2, u64::MAX as nat) {
                Err(e) => Err(e),
                Ok((b, r)) => Ok((a as u64, b as u64, r)),
            }
        },
    }
}

/// `name [BASE = address]` at `p`; with no name, nothing is read.
pub open spec fn name_at(t: Seq<char>, p: int) -> Result<(Seq<char>, u64, int), ErrorModel> {
    let (k, v, q) = lex(t, p);
    if k != TokenKind::Identifier {
        Ok((seq![], 0, p))
    } else if lex(t, q).0 != TokenKind::KwBase {
        Ok((v.unwrap(), 0, q))
    } else {
        let q2 = lex(t, q).2;
        if lex(t, q2).0 != TokenKind::Equal {
            Err(ErrorModel::ExpectedEqual)
        } else {
            match int_at(t, lex(t, q2).2, u64::MAX as nat) {
                Err(e) => Err(e),
                Ok((b, r)) => Ok((v.unwrap(), b as u64, r)),
            }
        }
    }
}

/// The position of the first `.` in `s`, or its length.
pub open spec fn dot_index(s: Seq<char>) -> int {
    find_from(s, 0, '.')
}

/// `major[.minor]` at `p`.
pub open spec fn version_at(t: Seq<char>, p: int) -> Result<(u32, u32, int), ErrorModel> {
    let (k, v, q) = lex(t, p);
    if k != TokenKind::Identifier {
        Err(ErrorModel::ExpectedIdentifier)
    } else {
        let s = v.unwrap();
        let i = dot_index(s);
        if i < s.len() {
            match (parse_uint(s.subrange(0, i), u32::MAX as nat), parse_uint(
                s.subrange(i + 1, s.len() as int),
                u32::MAX as nat,
            )) {
                (Some(a), Some(b)) => Ok((a as u32, b as u32, q)),
                _ => Err(ErrorModel::ExpectedInteger),
            }
        } else {
            match parse_uint(s, u32::MAX as nat) {
                Some(a) => Ok((a as u32, 0, q)),
                None => Err(ErrorModel::ExpectedInteger),
            }
        }
    }
}

/// After an ordinal ending at `p`: an optional `NONAME`, then the remaining
/// modifiers.
pub open spec fn after_ordinal(t: Seq<char>, p: int, e: ExportModel) -> Result<
    (ExportModel, int),
    ErrorModel,
>
    decreases t.len() - p, 1int,
{
    if 0 <= p <= t.len() {
        if lex(t, p).0 == TokenKind::KwNoname && advances(t, p) {
            modifiers(t, lex(t, p).2, ExportModel { no_name: true, ..e })
        } else {
            modifiers(t, p, e)
        }
    } else {
        Ok((e, p))
    }
}

/// The modifiers of an export starting at `p`, and where they end.
pub open spec fn modifiers(t: Seq<char>, p: int, e: ExportModel) -> Result<(ExportModel, int), ErrorModel>
    decreases t.len() - p, 0int,
{
    let (k, v, q) = lex(t, p);
    if !(0 <= p && advances(t, p)) {
        Ok((e, p))
    } else if k == TokenKind::Identifier && v.unwrap().len() > 0 && v.unwrap()[0] == '@' {
        let s = v.unwrap();
        if s == seq!['@'] {
            let (k2, v2, q2) = lex(t, q);
            if v2.is_none() {
                Err(ErrorModel::ExpectedIdentifier)
            } else {
                match parse_uint(v2.unwrap(), u16::MAX as nat) {
                    None => Err(ErrorModel::ExpectedInteger),
                    Some(n) => if p < q2 <= t.len() {
                        after_ordinal(t, q2, ExportModel { ordinal: n as u16, ..e })
                    } else {
                        Ok((e, p))
                    },
                }
            }
        } else {
            match parse_uint(s.drop_first(), u16::MAX as nat) {
                None => Ok((e, p)),
                Some(n) => after_ordinal(t, q, ExportModel { ordinal: n as u16, ..e }),
            }
        }
    } else if k == TokenKind::KwData {
        modifiers(t, q, ExportModel { data: true, ..e })
    } else if k == TokenKind::KwConstant {
        modifiers(t, q, ExportModel { constant: true, ..e })
    } else if k == TokenKind::KwPrivate {
        modifiers(t, q, ExportModel { private: true, ..e })
    } else if k == TokenKind::EqualEqual {
        let (k2, v2, q2) = lex(t, q);
        if k2 != TokenKind::Identifier {
            Err(ErrorModel::ExpectedIdentifier)
        } else if p < q2 <= t.len() {
            modifiers(t, q2, ExportModel { alias_target: v2.unwrap(), ..e })
        } else {
            Ok((e, p))
        }
    } else {
        Ok((e, p))
    }
}

/// One export whose first identifier `first` ended at `p`.
pub open spec fn export_at(t: Seq<char>, p: int, first: Seq<char>, machine: MachineType) -> Result<
    (ExportModel, int),
    ErrorModel,
> {
    let (k, v, q) = lex(t, p);
    if k == TokenKind::Equal {
        let (k2, v2, q2) = lex(t, q);
        if k2 != TokenKind::Identifier {
            Err(ErrorModel::ExpectedIdentifier)
        } else {
            modifiers(
                t,
                q2,
                ExportModel {
                    ext_name: Some(decorate(machine, first)),
                    ..plain_export(decorate(machine, v2.unwrap()))
                },
            )
        }
    } else {
        modifiers(t, p, plain_export(decorate(machine, first)))
    }
}

/// The exports listed from `p` on, added to `d`, and where the list ends.
pub open spec fn exports_at(t: Seq<char>, p: int, d: DefModel, machine: MachineType) -> Result<
    (DefModel, int),
    ErrorModel,
>
    decreases t.len() - p,
{
    let (k, v, q) = lex(t, p);
    if k != TokenKind::Identifier || !(0 <= p && advances(t, p)) {
        Ok((d, p))
    } else {
        match export_at(t, q, v.unwrap(), machine) {
            Err(e) => Err(e),
            Ok((ex, r)) => if p < r <= t.len() {
                exports_at(t, r, DefModel { exports: d.exports.push(ex), ..d }, machine)
            } else {
                Ok((d, p))
            },
        }
    }
}

/// The directives from `p` on, applied to `d`.
pub open spec fn directives_at(t: Seq<char>, p: int, d: DefModel, machine: MachineType) -> Result<
    DefModel,
    ErrorModel,
>
    decreases t.len() - p,
{
    let (k, v, q) = lex(t, p);
    if k == TokenKind::Eof || !(0 <= p && advances(t, p)) {
        Ok(d)
    } else if k == TokenKind::KwExports {
        match exports_at(t, q, d, machine) {
            Err(e) => Err(e),
            Ok((d2, r)) => if q <= r <= t.len() {
                directives_at(t, r, d2, machine)
            } else {
                Ok(d2)
            },
        }
    } else if k == TokenKind::KwHeapsize || k == TokenKind::KwStacksize {
        match numbers_at(t, q) {
            Err(e) => Err(e),
            Ok((a, b, r)) => if q <= r <= t.len() {
                directives_at(
                    t,
                    r,
                    if k == TokenKind::KwHeapsize {
                        DefModel { heap_reserve: a, heap_commit: b, ..d }
                    } else {
                        DefModel { stack_reserve: a, stack_commit: b, ..d }
                    },
                    machine,
                )
            } else {
                Ok(d)
            },
        }
    } else if k == TokenKind::KwLibrary || k == TokenKind::KwName {
        match name_at(t, q) {
            Err(e) => Err(e),
            Ok((n, b, r)) => if q <= r <= t.len() {
                directives_at(t, r, DefModel { import_name: n, image_base: b, ..d }, machine)
            } else {
                Ok(d)
            },
        }
    } else if k == TokenKind::KwVersion {
        match version_at(t, q) {
            Err(e) => Err(e),
            Ok((a, b, r)) => if q <= r <= t.len() {
                directives_at(
                    t,
                    r,
                    DefModel { major_image_version: a, minor_image_version: b, ..d },
                    machine,
                )
            } else {
                Ok(d)
            },
        }
    } else {
        Err(ErrorModel::UnknownDirective(v.unwrap()))
    }
}

/// What parsing the text `t` gives.
pub open spec fn parse_text(t: Seq<char>, machine: MachineType) -> Result<DefModel, ErrorModel> {
    directives_at(t, 0, empty_def(), machine)
}

proof fn lemma_digits_prefix(d: Seq<char>, k: int)
    requires
        0 <= k <= d.len(),
        forall|i: int| 0 <= i < d.len() ==> is_digit(#[trigger] d[i]),
    ensures
        digits_value(d.subrange(0, k)) <= digits_value(d),
    decreases d.len(),
{
    if k < d.len() {
        assert(d.drop_last().subrange(0, k) == d.subrange(0, k));
        assert forall|i: int| 0 <= i < d.drop_last().len() implies is_digit(#[trigger] d.drop_last()[i]) by {
            assert(d.drop_last()[i] == d[i]);
        }
        lemma_digits_prefix(d.drop_last(), k);
    } else {
        assert(d.subrange(0, k) == d);
    }
}

/// The value of `s` as `str::parse` reads an unsigned integer of at most
/// `max`.
fn parse_number(s: &Vec<char>, max: u64) -> (r: Option<u64>)
    ensures
        match r {
            Some(n) => parse_uint(s@, max as nat) == Some(n as nat),
            None => parse_uint(s@, max as nat).is_none(),
        },
{
    let start: usize = if s.len() > 0 && s[0] == '+' {
        1
    } else {
        0
    };
    let ghost d = unsigned_part(s@);
    assert(d =~= s@.subrange(start as int, s@.len() as int));
    if start >= s.len() {
        return None;
    }
    let mut v: u64 = 0;
    let mut i: usize = start;
    while i < s.len()
        invariant
            start <= i <= s@.len(),
            d == unsigned_part(s@),
            d == s@.subrange(start as int, s@.len() as int),
            forall|j: int| 0 <= j < i - start ==> is_digit(#[trigger] d[j]),
            v as nat == digits_value(d.subrange(0, i - start)),
            v <= max,
        decreases s@.len() - i,
    {
        let c = s[i];
        assert(d[i - start] == s@[i as int]);
        if !('0' <= c && c <= '9') {
            assert(!is_digit(d[i - start]));
            assert(!all_digits(d));
            assert(parse_uint(s@, max as nat).is_none());
            return None;
        }
        let dgt: u64 = (c as u32 - 48) as u64;
        assert(d.subrange(0, i + 1 - start).drop_last() == d.subrange(0, i - start));
        if dgt > max || v > (max - dgt) / 10 {
            proof {
                assert(v * 10 + dgt > max) by (nonlinear_arith)
                    requires
                        dgt > max || v > (max - dgt) / 10,
                        dgt <= max ==> (max - dgt) / 10 * 10 + 10 > max - dgt,
                ;
                assert(d.subrange(0, i + 1 - start).last() == c);
                assert(digits_value(d.subrange(0, i + 1 - start)) == v * 10 + dgt);
                if all_digits(d) {
                    lemma_digits_prefix(d, i + 1 - start);
                }
                assert(parse_uint(s@, max as nat).is_none());
            }
            return None;
        }
        v = v * 10 + dgt;
        i += 1;
    }
    assert(d.subrange(0, i - start) == d);
    Some(v)
}

/// The characters of `v` from `lo` to `hi`.
fn copy_range(v: &Vec<char>, lo: usize, hi: usize) -> (r: Vec<char>)
    requires
        lo <= hi <= v@.len(),
    ensures
        r@ == v@.subrange(lo as int, hi as int),
{
    let mut r: Vec<char> = Vec::new();
    let mut i: usize = lo;
    while i < hi
        invariant
            lo <= i <= hi <= v@.len(),
            r@ == v@.subrange(lo as int, i as int),
        decreases hi - i,
    {
        r.push(v[i]);
        i += 1;
        assert(r@ =~= v@.subrange(lo as int, i as int));
    }
    r
}

/// Whether the symbol name `s` is already decorated.
fn decorated(s: &Vec<char>) -> (r: bool)
    ensures
        r == is_decorated(s@),
{
    if s.len() > 0 && (s[0] == '@' || s[0] == '?') {
        return true;
    }
    let i = find_char(s, 0, '@');
    proof {
        super::lexer::lemma_find_from_bounds(s@, 0, '@');
        if s@.contains('@') {
            let j = choose|j: int| 0 <= j < s@.len() && s@[j] == '@';
            lemma_find_from_first(s@, 0, '@', j);
        }
    }
    i < s.len()
}

proof fn lemma_find_from_first(t: Seq<char>, i: int, c: char, j: int)
    requires
        0 <= i <= j < t.len(),
        t[j] == c,
    ensures
        find_from(t, i, c) <= j,
    decreases j - i,
{
    if t[i] != c {
        lemma_find_from_first(t, i + 1, c, j);
    }
}

/// `s` as the parser stores it under `machine`.
fn decorate_name(machine: MachineType, s: &Vec<char>) -> (r: Vec<char>)
    ensures
        r@ == decorate(machine, s@),
{
    if machine == MachineType::I386 && !decorated(s) {
        let mut r: Vec<char> = vec!['_'];
        let mut i: usize = 0;
        while i < s.len()
            invariant
                i <= s@.len(),
                r@ == seq!['_'] + s@.subrange(0, i as int),
            decreases s@.len() - i,
        {
            r.push(s[i]);
            i += 1;
            assert(r@ =~= seq!['_'] + s@.subrange(0, i as int));
        }
        assert(s@.subrange(0, s@.len() as int) == s@);
        r
    } else {
        copy_range(s, 0, s.len())
    }
}

/// Parser of module-definition text.
#[derive(Debug)]
pub struct Parser {
    lexer: Lexer,
    def: ModuleDef,
    machine: MachineType,
}

impl Parser {
    /// The text being parsed.
    pub closed spec fn text(&self) -> Seq<char> {
        self.lexer.chars()
    }

    /// The machine that the names are decorated for.
    pub closed spec fn machine_type(&self) -> MachineType {
        self.machine
    }

    /// What the parser will return.
    pub closed spec fn outcome(&self) -> Result<DefModel, ErrorModel> {
        directives_at(self.lexer.chars(), self.lexer.position(), self.def@, self.machine)
    }

    /// The parser's invariant.
    pub closed spec fn wf(&self) -> bool {
        self.lexer.wf()
    }

    /// A parser at the start of `text`.
    pub fn new(text: &str, machine: MachineType) -> (r: Parser)
        ensures
            r.wf(),
            r.text() == text@,
            r.machine_type() == machine,
            r.outcome() == parse_text(text@, machine),
    {
        Parser { lexer: Lexer::new(text), def: ModuleDef::default(), machine }
    }

    /// The next token, with its text when it has one.
    fn read(&mut self) -> (r: (TokenKind, Option<Vec<char>>))
        requires
            old(self).lexer.wf(),
        ensures
            final(self).lexer.wf(),
            final(self).lexer.chars() == old(self).lexer.chars(),
            final(self).def == old(self).def,
            final(self).machine == old(self).machine,
            lex(old(self).lexer.chars(), old(self).lexer.position()) == (
                r.0,
                chars_view(r.1),
                final(self).lexer.position(),
            ),
            old(self).lexer.position() <= final(self).lexer.position() <= old(self).lexer.chars().len(),
            r.0 != TokenKind::Eof ==> old(self).lexer.position() < final(self).lexer.position(),
            r.1.is_some() <==> r.0 != TokenKind::Eof,
    {
        proof {
            self.lexer.lemma_position();
            lemma_lex_bounds(self.lexer.chars(), self.lexer.position());
        }
        self.lexer.scan()
    }

    /// A decimal integer of at most `max`.
    fn read_as_int(&mut self, max: u64) -> (r: Result<u64, Error>)
        requires
            old(self).lexer.wf(),
        ensures
            final(self).lexer.wf(),
            final(self).lexer.chars() == old(self).lexer.chars(),
            final(self).def == old(self).def,
            final(self).machine == old(self).machine,
            old(self).lexer.position() <= final(self).lexer.position(),
            match int_at(old(self).lexer.chars(), old(self).lexer.position(), max as nat) {
                Ok((n, q)) => r == Ok::<u64, Error>(n as u64) && final(self).lexer.position() == q,
                Err(e) => r matches Err(x) && x@ == e,
            },
    {
        let (k, v) = self.read();
        if k != TokenKind::Identifier {
            return Err(Error::ExpectedIdentifier);
        }
        let s = match v {
            Some(s) => s,
            None => {
                return Err(Error::ExpectedIdentifier);
            },
        };
        match parse_number(&s, max) {
            Some(n) => Ok(n),
            None => Err(Error::ExpectedInteger),
        }
    }

    /// `reserve[, commit]`.
    fn parse_numbers(&mut self) -> (r: Result<(u64, u64), Error>)
        requires
            old(self).lexer.wf(),
        ensures
            final(self).lexer.wf(),
            final(self).lexer.chars() == old(self).lexer.chars(),
            final(self).def == old(self).def,
            final(self).machine == old(self).machine,
            old(self).lexer.position() <= final(self).lexer.position(),
            match numbers_at(old(self).lexer.chars(), old(self).lexer.position()) {
                Ok((a, b, q)) => r == Ok::<(u64, u64), Error>((a, b)) && final(self).lexer.position()
                    == q,
                Err(e) => r matches Err(x) && x@ == e,
            },
    {
        let reserve = match self.read_as_int(u64::MAX) {
            Ok(n) => n,
            Err(e) => {
                return Err(e);
            },
        };
        let save = self.lexer.pos();
        let (k, _) = self.read();
        if k != TokenKind::Comma {
            self.lexer.rewind(save);
            return Ok((reserve, 0));
        }
        match self.read_as_int(u64::MAX) {
            Ok(commit) => Ok((reserve, commit)),
            Err(e) => Err(e),
        }
    }

    /// `name [BASE = address]`.
    fn parse_name(&mut self) -> (r: Result<(Vec<char>, u64), Error>)
        requires
            old(self).lexer.wf(),
        ensures
            final(self).lexer.wf(),
            final(self).lexer.chars() == old(self).lexer.chars(),
            final(self).def == old(self).def,
            final(self).machine == old(self).machine,
            old(self).lexer.position() <= final(self).lexer.position(),
            match name_at(old(self).lexer.chars(), old(self).lexer.position()) {
                Ok((n, b, q)) => r matches Ok((x, y)) && x@ == n && y == b && final(self).lexer.position() == q,
                Err(e) => r matches Err(x) && x@ == e,
            },
    {
        let start = self.lexer.pos();
        let (k, v) = self.read();
        if k != TokenKind::Identifier {
            self.lexer.rewind(start);
            return Ok((Vec::new(), 0));
        }
        let name = match v {
            Some(s) => s,
            None => {
                return Ok((Vec::new(), 0));
            },
        };
        let save = self.lexer.pos();
        let (k2, _) = self.read();
        if k2 != TokenKind::KwBase {
            self.lexer.rewind(save);
            return Ok((name, 0));
        }
        let (k3, _) = self.read();
        if k3 != TokenKind::Equal {
            return Err(Error::ExpectedEqual);
        }
        match self.read_as_int(u64::MAX) {
            Ok(base) => Ok((name, base)),
            Err(e) => Err(e),
        }
    }

    /// `major[.minor]`.
    fn parse_version(&mut self) -> (r: Result<(u32, u32), Error>)
        requires
            old(self).lexer.wf(),
        ensures
            final(self).lexer.wf(),
            final(self).lexer.chars() == old(self).lexer.chars(),
            final(self).def == old(self).def,
            final(self).machine == old(self).machine,
            old(self).lexer.position() <= final(self).lexer.position(),
            match version_at(old(self).lexer.chars(), old(self).lexer.position()) {
                Ok((a, b, q)) => r == Ok::<(u32, u32), Error>((a, b)) && final(self).lexer.position()
                    == q,
                Err(e) => r matches Err(x) && x@ == e,
            },
    {
        let (k, v) = self.read();
        if k != TokenKind::Identifier {
            return Err(Error::ExpectedIdentifier);
        }
        let s = match v {
            Some(s) => s,
            None => {
                return Err(Error::ExpectedIdentifier);
            },
        };
        let i = find_char(&s, 0, '.');
        if i < s.len() {
            let major = copy_range(&s, 0, i);
            let minor = copy_range(&s, i + 1, s.len());
            match (parse_number(&major, 0xffff_ffff), parse_number(&minor, 0xffff_ffff)) {
                (Some(a), Some(b)) => Ok((a as u32, b as u32)),
                _ => Err(Error::ExpectedInteger),
            }
        } else {
            match parse_number(&s, 0xffff_ffff) {
                Some(a) => Ok((a as u32, 0)),
                None => Err(Error::ExpectedInteger),
            }
        }
    }
}

impl Parser {
    /// The modifiers that follow an export's names.
    fn parse_modifiers(&mut self, export: ShortExport) -> (r: Result<ShortExport, Error>)
        requires
            old(self).lexer.wf(),
        ensures
            final(self).lexer.wf(),
            final(self).lexer.chars() == old(self).lexer.chars(),
            final(self).def == old(self).def,
            final(self).machine == old(self).machine,
            old(self).lexer.position() <= final(self).lexer.position(),
            match modifiers(old(self).lexer.chars(), old(self).lexer.position(), export@) {
                Ok((m, q)) => r matches Ok(x) && x@ == m && final(self).lexer.position() == q,
                Err(e) => r matches Err(x) && x@ == e,
            },
    {
        let ghost t = self.lexer.chars();
        let ghost goal = modifiers(t, self.lexer.position(), export@);
        let mut e = export;
        loop
            invariant
                self.lexer.wf(),
                self.lexer.chars() == t,
                self.def == old(self).def,
                self.machine == old(self).machine,
                t == old(self).lexer.chars(),
                goal == modifiers(old(self).lexer.chars(), old(self).lexer.position(), export@),
                goal == modifiers(t, self.lexer.position(), e@),
                old(self).lexer.position() <= self.lexer.position(),
            decreases t.len() - self.lexer.position(),
        {
            proof {
                self.lexer.lemma_position();
            }
            let p = self.lexer.pos();
            let (k, v) = self.read();
            if k == TokenKind::Eof {
                self.lexer.rewind(p);
                return Ok(e);
            }
            let s = match v {
                Some(s) => s,
                None => {
                    self.lexer.rewind(p);
                    return Ok(e);
                },
            };
            let q = self.lexer.pos();
            let ghost e0 = e@;
            if k == TokenKind::Identifier && s.len() > 0 && s[0] == '@' {
                let mut after = q;
                if s.len() == 1 {
                    assert(s@ =~= seq!['@']);
                    let (_, v2) = self.read();
                    let s2 = match v2 {
                        Some(s2) => s2,
                        None => {
                            return Err(Error::ExpectedIdentifier);
                        },
                    };
                    match parse_number(&s2, 0xffff) {
                        Some(n) => {
                            e.ordinal = n as u16;
                        },
                        None => {
                            return Err(Error::ExpectedInteger);
                        },
                    }
                    after = self.lexer.pos();
                } else {
                    assert(s@ != seq!['@']);
                    let digits = copy_range(&s, 1, s.len());
                    assert(digits@ =~= s@.drop_first());
                    match parse_number(&digits, 0xffff) {
                        Some(n) => {
                            e.ordinal = n as u16;
                        },
                        None => {
                            self.lexer.rewind(p);
                            return Ok(e);
                        },
                    }
                }
                proof {
                    self.lexer.lemma_position();
                }
                let ghost e1 = e@;
                assert(e1 == ExportModel { ordinal: e1.ordinal, ..e0 });
                assert(goal == after_ordinal(t, after as int, e1));
                let (k3, _) = self.read();
                if k3 == TokenKind::KwNoname {
                    e.no_name = true;
                    assert(e@ == ExportModel { no_name: true, ..e1 });
                } else {
                    self.lexer.rewind(after);
                }
            } else if k == TokenKind::KwData {
                e.data = true;
            } else if k == TokenKind::KwConstant {
                e.constant = true;
            } else if k == TokenKind::KwPrivate {
                e.private = true;
            } else if k == TokenKind::EqualEqual {
                let (k2, v2) = self.read();
                if k2 != TokenKind::Identifier {
                    return Err(Error::ExpectedIdentifier);
                }
                match v2 {
                    Some(a) => {
                        e.alias_target = string_of(a.as_slice());
                    },
                    None => {
                        return Err(Error::ExpectedIdentifier);
                    },
                }
            } else {
                self.lexer.rewind(p);
                return Ok(e);
            }
        }
    }

    /// One export, whose first identifier `first` has been read.
    fn parse_export(&mut self, first: Vec<char>) -> (r: Result<ShortExport, Error>)
        requires
            old(self).lexer.wf(),
        ensures
            final(self).lexer.wf(),
            final(self).lexer.chars() == old(self).lexer.chars(),
            final(self).def == old(self).def,
            final(self).machine == old(self).machine,
            old(self).lexer.position() <= final(self).lexer.position(),
            match export_at(
                old(self).lexer.chars(),
                old(self).lexer.position(),
                first@,
                old(self).machine,
            ) {
                Ok((m, q)) => r matches Ok(x) && x@ == m && final(self).lexer.position() == q,
                Err(e) => r matches Err(x) && x@ == e,
            },
    {
        let p = self.lexer.pos();
        let (k, _) = self.read();
        let (name, ext_name) = if k == TokenKind::Equal {
            let (k2, v2) = self.read();
            if k2 != TokenKind::Identifier {
                return Err(Error::ExpectedIdentifier);
            }
            let second = match v2 {
                Some(s) => s,
                None => {
                    return Err(Error::ExpectedIdentifier);
                },
            };
            let n = decorate_name(self.machine, &second);
            let x = decorate_name(self.machine, &first);
            (string_of(n.as_slice()), Some(string_of(x.as_slice())))
        } else {
            self.lexer.rewind(p);
            let n = decorate_name(self.machine, &first);
            (string_of(n.as_slice()), None)
        };
        let export = ShortExport {
            name,
            ext_name,
            symbol_name: String::new(),
            alias_target: String::new(),
            ordinal: 0,
            no_name: false,
            data: false,
            private: false,
            constant: false,
        };
        self.parse_modifiers(export)
    }

    /// The exports listed after `EXPORTS`.
    fn parse_exports(&mut self) -> (r: Result<(), Error>)
        requires
            old(self).lexer.wf(),
        ensures
            final(self).lexer.wf(),
            final(self).lexer.chars() == old(self).lexer.chars(),
            final(self).machine == old(self).machine,
            old(self).lexer.position() <= final(self).lexer.position(),
            match exports_at(
                old(self).lexer.chars(),
                old(self).lexer.position(),
                old(self).def@,
                old(self).machine,
            ) {
                Ok((d, q)) => r is Ok && final(self).def@ == d && final(self).lexer.position() == q,
                Err(e) => r matches Err(x) && x@ == e,
            },
    {
        let ghost t = self.lexer.chars();
        let ghost goal = exports_at(t, self.lexer.position(), self.def@, self.machine);
        loop
            invariant
                self.lexer.wf(),
                self.lexer.chars() == t,
                self.machine == old(self).machine,
                t == old(self).lexer.chars(),
                goal == exports_at(
                    old(self).lexer.chars(),
                    old(self).lexer.position(),
                    old(self).def@,
                    old(self).machine,
                ),
                goal == exports_at(t, self.lexer.position(), self.def@, self.machine),
                old(self).lexer.position() <= self.lexer.position(),
            decreases t.len() - self.lexer.position(),
        {
            proof {
                self.lexer.lemma_position();
            }
            let p = self.lexer.pos();
            let (k, v) = self.read();
            if k != TokenKind::Identifier {
                self.lexer.rewind(p);
                return Ok(());
            }
            let first = match v {
                Some(s) => s,
                None => {
                    self.lexer.rewind(p);
                    return Ok(());
                },
            };
            proof {
                self.lexer.lemma_position();
            }
            match self.parse_export(first) {
                Ok(export) => {
                    let ghost before = self.def@;
                    self.def.exports.push(export);
                    assert(self.def@.exports =~= before.exports.push(export@));
                    assert(self.def@ == DefModel { exports: before.exports.push(export@), ..before });
                },
                Err(e) => {
                    return Err(e);
                },
            }
            proof {
                self.lexer.lemma_position();
            }
        }
    }

    /// Parses the whole text.
    pub fn parse(self) -> (r: Result<ModuleDef, Error>)
        requires
            self.wf(),
        ensures
            match r {
                Ok(d) => self.outcome() == Ok::<DefModel, ErrorModel>(d@),
                Err(e) => self.outcome() == Err::<DefModel, ErrorModel>(e@),
            },
    {
        let ghost goal = self.outcome();
        let mut this = self;
        let ghost t = this.lexer.chars();
        loop
            invariant
                this.lexer.wf(),
                this.lexer.chars() == t,
                goal == directives_at(t, this.lexer.position(), this.def@, this.machine),
                goal == self.outcome(),
            decreases t.len() - this.lexer.position(),
        {
            proof {
                this.lexer.lemma_position();
            }
            let (k, v) = this.read();
            if k == TokenKind::Eof {
                return Ok(this.def);
            }
            proof {
                this.lexer.lemma_position();
            }
            if k == TokenKind::KwExports {
                match this.parse_exports() {
                    Ok(()) => {},
                    Err(e) => {
                        return Err(e);
                    },
                }
            } else if k == TokenKind::KwHeapsize {
                match this.parse_numbers() {
                    Ok((a, b)) => {
                        this.def.heap_reserve = a;
                        this.def.heap_commit = b;
                    },
                    Err(e) => {
                        return Err(e);
                    },
                }
            } else if k == TokenKind::KwStacksize {
                match this.parse_numbers() {
                    Ok((a, b)) => {
                        this.def.stack_reserve = a;
                        this.def.stack_commit = b;
                    },
                    Err(e) => {
                        return Err(e);
                    },
                }
            } else if k == TokenKind::KwLibrary || k == TokenKind::KwName {
                match this.parse_name() {
                    Ok((n, b)) => {
                        this.def.import_name = string_of(n.as_slice());
                        this.def.image_base = b;
                    },
                    Err(e) => {
                        return Err(e);
                    },
                }
            } else if k == TokenKind::KwVersion {
                match this.parse_version() {
                    Ok((a, b)) => {
                        this.def.major_image_version = a;
                        this.def.minor_image_version = b;
                    },
                    Err(e) => {
                        return Err(e);
                    },
                }
            } else {
                let name = match v {
                    Some(s) => string_of(s.as_slice()),
                    None => String::new(),
                };
                return Err(Error::UnknownDirective(name));
            }
            proof {
                this.lexer.lemma_position();
            }
        }
    }
}

/// Parsing empty text gives a module definition with nothing set.
pub proof fn lemma_parse_empty(machine: MachineType)
    ensures
        parse_text(seq![], machine) == Ok::<DefModel, ErrorModel>(empty_def()),
{
}

/// A comment line, indented or not, has no effect: parsing from the start
/// of the line gives what parsing from the next line gives.
pub proof fn lemma_comment_line_skipped(
    t: Seq<char>,
    p: int,
    d: DefModel,
    machine: MachineType,
)
    requires
        0 <= p < t.len(),
        forall|i: int| p <= i < find_from(t, p, ';') ==> is_white(#[trigger] t[i]),
        find_from(t, p, ';') < find_from(t, p, '\n') < t.len(),
    ensures
        directives_at(t, p, d, machine) == directives_at(t, find_from(t, p, '\n') + 1, d, machine),
    decreases find_from(t, p, ';') - p,
{
    super::lexer::lemma_find_from_bounds(t, p, ';');
    let c = find_from(t, p, ';');
    if p < c {
        assert(is_white(t[p]));
        assert(lex(t, p) == lex(t, p + 1));
        assert(find_from(t, p, ';') == find_from(t, p + 1, ';'));
        assert(t[p] != '\n');
        assert(find_from(t, p, '\n') == find_from(t, p + 1, '\n'));
        lemma_comment_line_skipped(t, p + 1, d, machine);
        let (k, v, q) = lex(t, p);
        lemma_lex_bounds(t, p + 1);
    } else {
        assert(t[p] == ';');
        assert(find_from(t, p, '\n') == find_from(t, p + 1, '\n'));
        super::lexer::lemma_find_from_bounds(t, p + 1, '\n');
        let q = find_from(t, p, '\n');
        assert(lex(t, p) == lex(t, q + 1));
        lemma_lex_bounds(t, q + 1);
    }
    let nl = find_from(t, p, '\n');
    lemma_lex_bounds(t, nl + 1);
}

proof fn lemma_delim_from_at(t: Seq<char>, i: int, j: int)
    requires
        0 <= i <= j <= t.len(),
        forall|k: int| i <= k < j ==> !is_delim(#[trigger] t[k]),
        j == t.len() || is_delim(t[j]),
    ensures
        delim_from(t, i) == j,
    decreases j - i,
{
    if i < j {
        lemma_delim_from_at(t, i + 1, j);
    }
}

proof fn lemma_trim_plain(s: Seq<char>)
    requires
        s.len() > 0,
        !is_white(s[0]),
        !is_white(s.last()),
    ensures
        trim(s) == s,
{
}

/// Whether `x` is a plain identifier: a bare word that spells no keyword.
pub open spec fn plain_identifier(x: Seq<char>) -> bool {
    &&& x.len() > 0
    &&& forall|i: int| 0 <= i < x.len() ==> !is_delim(#[trigger] x[i])
    &&& !is_white(x[0]) && !is_white(x.last())
    &&& x[0] != '\0' && x[0] != ';' && x[0] != '"'
    &&& word_kind(x) == TokenKind::Identifier
}

proof fn lemma_directive_then_name(t: Seq<char>, kw: Seq<char>, x: Seq<char>, machine: MachineType)
    requires
        t == kw + seq![' '] + x,
        kw.len() > 0,
        plain_identifier(x),
        plain_identifier(kw) || word_kind(kw) == TokenKind::KwLibrary || word_kind(kw)
            == TokenKind::KwName,
        forall|i: int| 0 <= i < kw.len() ==> !is_delim(#[trigger] kw[i]),
        !is_white(kw[0]) && !is_white(kw.last()),
        kw[0] != '\0' && kw[0] != ';' && kw[0] != '"' && kw[0] != '=' && kw[0] != ',',
    ensures
        lex(t, 0) == (word_kind(kw), Some(kw), kw.len() as int),
        lex(t, kw.len() as int) == (TokenKind::Identifier, Some(x), t.len() as int),
{
    let n = kw.len() as int;
    assert forall|k: int| 1 <= k < n implies !is_delim(#[trigger] t[k]) by {
        assert(t[k] == kw[k]);
    }
    assert(t[n] == ' ');
    lemma_delim_from_at(t, 1, n);
    assert(t.subrange(0, n) =~= kw);
    lemma_trim_plain(kw);
    assert(t[0] == kw[0]);
    assert(!is_white(t[0]));
    assert(lex(t, 0) == (word_kind(kw), Some(kw), n));
    assert(is_white(t[n]));
    assert(lex(t, n) == lex(t, n + 1));
    assert forall|k: int| n + 2 <= k < t.len() implies !is_delim(#[trigger] t[k]) by {
        assert(t[k] == x[k - n - 1]);
    }
    lemma_delim_from_at(t, n + 2, t.len() as int);
    assert(t.subrange(n + 1, t.len() as int) =~= x);
    lemma_trim_plain(x);
    assert(t[n + 1] == x[0]);
    assert(!is_white(x[0]));
    assert(x[0] != '=' && x[0] != ',') by {
        assert(!is_delim(x[0]));
    }
}

#[verifier::rlimit(60)]
proof fn lemma_name_directive(t: Seq<char>, kw: Seq<char>, x: Seq<char>, machine: MachineType)
    requires
        t == kw + seq![' '] + x,
        kw == seq!['L', 'I', 'B', 'R', 'A', 'R', 'Y'] || kw == seq!['N', 'A', 'M', 'E'],
        plain_identifier(x),
    ensures
        parse_text(t, machine) == Ok::<DefModel, ErrorModel>(
            DefModel { import_name: x, ..empty_def() },
        ),
{
    assert(word_kind(kw) == TokenKind::KwLibrary || word_kind(kw) == TokenKind::KwName);
    lemma_directive_then_name(t, kw, x, machine);
    let n = kw.len() as int;
    assert(lex(t, t.len() as int).0 == TokenKind::Eof);
    assert(name_at(t, n) == Ok::<(Seq<char>, u64, int), ErrorModel>((x, 0, t.len() as int)));
    let d = DefModel { import_name: x, image_base: 0, ..empty_def() };
    assert(directives_at(t, t.len() as int, d, machine) == Ok::<DefModel, ErrorModel>(d));
}

/// `LIBRARY x` and `NAME x` both set the import name to `x`, and nothing
/// else, for any plain identifier `x`.
pub proof fn lemma_library_and_name_agree(x: Seq<char>, machine: MachineType)
    requires
        plain_identifier(x),
    ensures
        parse_text(seq!['L', 'I', 'B', 'R', 'A', 'R', 'Y', ' '] + x, machine) == Ok::<
            DefModel,
            ErrorModel,
        >(DefModel { import_name: x, ..empty_def() }),
        parse_text(seq!['N', 'A', 'M', 'E', ' '] + x, machine) == parse_text(
            seq!['L', 'I', 'B', 'R', 'A', 'R', 'Y', ' '] + x,
            machine,
        ),
{
    let lib = seq!['L', 'I', 'B', 'R', 'A', 'R', 'Y'];
    let name = seq!['N', 'A', 'M', 'E'];
    assert(seq!['L', 'I', 'B', 'R', 'A', 'R', 'Y', ' '] + x =~= lib + seq![' '] + x);
    assert(seq!['N', 'A', 'M', 'E', ' '] + x =~= name + seq![' '] + x);
    lemma_name_directive(lib + seq![' '] + x, lib, x, machine);
    lemma_name_directive(name + seq![' '] + x, name, x, machine);
}

proof fn lemma_int_at_shift(a: Seq<char>, t: Seq<char>, i: int, max: nat)
    requires
        0 <= i <= t.len(),
    ensures
        int_at(a + t, a.len() + i, max) == match int_at(t, i, max) {
            Ok((n, q)) => Ok::<(nat, int), ErrorModel>((n, a.len() + q)),
            Err(e) => Err(e),
        },
{
    lemma_lex_shift(a, t, i);
}

proof fn lemma_numbers_at_shift(a: Seq<char>, t: Seq<char>, i: int)
    requires
        0 <= i <= t.len(),
    ensures
        numbers_at(a + t, a.len() + i) == match numbers_at(t, i) {
            Ok((x, y, q)) => Ok::<(u64, u64, int), ErrorModel>((x, y, a.len() + q)),
            Err(e) => Err(e),
        },
{
    lemma_int_at_shift(a, t, i, u64::MAX as nat);
    lemma_lex_bounds(t, i);
    let q = lex(t, i).2;
    lemma_lex_shift(a, t, q);
    lemma_lex_bounds(t, q);
    lemma_int_at_shift(a, t, lex(t, q).2, u64::MAX as nat);
}

proof fn lemma_name_at_shift(a: Seq<char>, t: Seq<char>, i: int)
    requires
        0 <= i <= t.len(),
    ensures
        name_at(a + t, a.len() + i) == match name_at(t, i) {
            Ok((n, b, q)) => Ok::<(Seq<char>, u64, int), ErrorModel>((n, b, a.len() + q)),
            Err(e) => Err(e),
        },
{
    lemma_lex_shift(a, t, i);
    lemma_lex_bounds(t, i);
    let q = lex(t, i).2;
    lemma_lex_shift(a, t, q);
    lemma_lex_bounds(t, q);
    let q2 = lex(t, q).2;
    lemma_lex_shift(a, t, q2);
    lemma_lex_bounds(t, q2);
    lemma_int_at_shift(a, t, lex(t, q2).2, u64::MAX as nat);
}

proof fn lemma_version_at_shift(a: Seq<char>, t: Seq<char>, i: int)
    requires
        0 <= i <= t.len(),
    ensures
        version_at(a + t, a.len() + i) == match version_at(t, i) {
            Ok((x, y, q)) => Ok::<(u32, u32, int), ErrorModel>((x, y, a.len() + q)),
            Err(e) => Err(e),
        },
{
    lemma_lex_shift(a, t, i);
}

proof fn lemma_modifiers_shift(a: Seq<char>, t: Seq<char>, i: int, e: ExportModel)
    requires
        0 <= i <= t.len(),
    ensures
        modifiers(a + t, a.len() + i, e) == match modifiers(t, i, e) {
            Ok((x, q)) => Ok::<(ExportModel, int), ErrorModel>((x, a.len() + q)),
            Err(err) => Err(err),
        },
    decreases t.len() - i, 0int,
{
    lemma_lex_shift(a, t, i);
    lemma_lex_bounds(t, i);
    let (k, v, q) = lex(t, i);
    if i < q <= t.len() {
        lemma_lex_shift(a, t, q);
        lemma_lex_bounds(t, q);
        let q2 = lex(t, q).2;
        if k == TokenKind::Identifier && v.unwrap().len() > 0 && v.unwrap()[0] == '@' {
            let s = v.unwrap();
            if s == seq!['@'] {
                if lex(t, q).1.is_some() {
                    match parse_uint(lex(t, q).1.unwrap(), u16::MAX as nat) {
                        Some(n) => {
                            if i < q2 <= t.len() {
                                lemma_after_ordinal_shift(a, t, q2, ExportModel { ordinal: n as u16, ..e });
                            }
                        },
                        None => {},
                    }
                }
            } else {
                match parse_uint(s.drop_first(), u16::MAX as nat) {
                    Some(n) => {
                        lemma_after_ordinal_shift(a, t, q, ExportModel { ordinal: n as u16, ..e });
                    },
                    None => {},
                }
            }
        } else if k == TokenKind::KwData {
            lemma_modifiers_shift(a, t, q, ExportModel { data: true, ..e });
        } else if k == TokenKind::KwConstant {
            lemma_modifiers_shift(a, t, q, ExportModel { constant: true, ..e });
        } else if k == TokenKind::KwPrivate {
            lemma_modifiers_shift(a, t, q, ExportModel { private: true, ..e });
        } else if k == TokenKind::EqualEqual {
            if lex(t, q).0 == TokenKind::Identifier && i < q2 <= t.len() {
                lemma_modifiers_shift(a, t, q2, ExportModel { alias_target: lex(t, q).1.unwrap(), ..e });
            }
        }
    }
}

proof fn lemma_after_ordinal_shift(a: Seq<char>, t: Seq<char>, i: int, e: ExportModel)
    requires
        0 <= i <= t.len(),
    ensures
        after_ordinal(a + t, a.len() + i, e) == match after_ordinal(t, i, e) {
            Ok((x, q)) => Ok::<(ExportModel, int), ErrorModel>((x, a.len() + q)),
            Err(err) => Err(err),
        },
    decreases t.len() - i, 1int,
{
    lemma_lex_shift(a, t, i);
    lemma_lex_bounds(t, i);
    if lex(t, i).0 == TokenKind::KwNoname && advances(t, i) {
        lemma_modifiers_shift(a, t, lex(t, i).2, ExportModel { no_name: true, ..e });
    } else {
        lemma_modifiers_shift(a, t, i, e);
    }
}

proof fn lemma_export_at_shift(a: Seq<char>, t: Seq<char>, i: int, first: Seq<char>, machine: MachineType)
    requires
        0 <= i <= t.len(),
    ensures
        export_at(a + t, a.len() + i, first, machine) == match export_at(t, i, first, machine) {
            Ok((x, q)) => Ok::<(ExportModel, int), ErrorModel>((x, a.len() + q)),
            Err(err) => Err(err),
        },
{
    lemma_lex_shift(a, t, i);
    lemma_lex_bounds(t, i);
    let q = lex(t, i).2;
    lemma_lex_shift(a, t, q);
    lemma_lex_bounds(t, q);
    let q2 = lex(t, q).2;
    if lex(t, i).0 == TokenKind::Equal {
        if lex(t, q).0 == TokenKind::Identifier {
            lemma_modifiers_shift(
                a,
                t,
                q2,
                ExportModel {
                    ext_name: Some(decorate(machine, first)),
                    ..plain_export(decorate(machine, lex(t, q).1.unwrap()))
                },
            );
        }
    } else {
        lemma_modifiers_shift(a, t, i, plain_export(decorate(machine, first)));
    }
}

proof fn lemma_exports_at_shift(a: Seq<char>, t: Seq<char>, i: int, d: DefModel, machine: MachineType)
    requires
        0 <= i <= t.len(),
    ensures
        exports_at(a + t, a.len() + i, d, machine) == match exports_at(t, i, d, machine) {
            Ok((x, q)) => Ok::<(DefModel, int), ErrorModel>((x, a.len() + q)),
            Err(err) => Err(err),
        },
    decreases t.len() - i,
{
    lemma_lex_shift(a, t, i);
    lemma_lex_bounds(t, i);
    let (k, v, q) = lex(t, i);
    if k == TokenKind::Identifier && advances(t, i) {
        lemma_export_at_shift(a, t, q, v.unwrap(), machine);
        match export_at(t, q, v.unwrap(), machine) {
            Ok((ex, r)) => {
                if i < r <= t.len() {
                    lemma_exports_at_shift(a, t, r, DefModel { exports: d.exports.push(ex), ..d }, machine);
                }
            },
            Err(_) => {},
        }
    }
}

/// The directives of `t` mean the same after any text `a` put before them.
pub proof fn lemma_directives_at_shift(a: Seq<char>, t: Seq<char>, i: int, d: DefModel, machine: MachineType)
    requires
        0 <= i <= t.len(),
    ensures
        directives_at(a + t, a.len() + i, d, machine) == directives_at(t, i, d, machine),
    decreases t.len() - i,
{
    lemma_lex_shift(a, t, i);
    lemma_lex_bounds(t, i);
    let (k, v, q) = lex(t, i);
    if k != TokenKind::Eof && advances(t, i) {
        if k == TokenKind::KwExports {
            lemma_exports_at_shift(a, t, q, d, machine);
            match exports_at(t, q, d, machine) {
                Ok((d2, r)) => {
                    if q <= r <= t.len() {
                        lemma_directives_at_shift(a, t, r, d2, machine);
                    }
                },
                Err(_) => {},
            }
        } else if k == TokenKind::KwHeapsize || k == TokenKind::KwStacksize {
            lemma_numbers_at_shift(a, t, q);
            match numbers_at(t, q) {
                Ok((x, y, r)) => {
                    if q <= r <= t.len() {
                        lemma_directives_at_shift(a, t, r, if k == TokenKind::KwHeapsize {
                            DefModel { heap_reserve: x, heap_commit: y, ..d }
                        } else {
                            DefModel { stack_reserve: x, stack_commit: y, ..d }
                        }, machine);
                    }
                },
                Err(_) => {},
            }
        } else if k == TokenKind::KwLibrary || k == TokenKind::KwName {
            lemma_name_at_shift(a, t, q);
            match name_at(t, q) {
                Ok((n, b, r)) => {
                    if q <= r <= t.len() {
                        lemma_directives_at_shift(a, t, r, DefModel { import_name: n, image_base: b, ..d }, machine);
                    }
                },
                Err(_) => {},
            }
        } else if k == TokenKind::KwVersion {
            lemma_version_at_shift(a, t, q);
            match version_at(t, q) {
                Ok((x, y, r)) => {
                    if q <= r <= t.len() {
                        lemma_directives_at_shift(
                            a,
                            t,
                            r,
                            DefModel { major_image_version: x, minor_image_version: y, ..d },
                            machine,
                        );
                    }
                },
                Err(_) => {},
            }
        }
    }
}

proof fn lemma_find_from_at(t: Seq<char>, i: int, j: int, c: char)
    requires
        0 <= i <= j < t.len(),
        forall|k: int| i <= k < j ==> #[trigger] t[k] != c,
        t[j] == c,
    ensures
        find_from(t, i, c) == j,
    decreases j - i,
{
    if i < j {
        lemma_find_from_at(t, i + 1, j, c);
    }
}

proof fn lemma_white_skipped(t: Seq<char>, p: int, d: DefModel, machine: MachineType)
    requires
        0 <= p < t.len(),
        is_white(t[p]),
    ensures
        directives_at(t, p, d, machine) == directives_at(t, p + 1, d, machine),
{
    assert(lex(t, p) == lex(t, p + 1));
    lemma_lex_bounds(t, p + 1);
}

/// An indented comment line has no effect: parsing `" ; " + c + "\n " + s`
/// gives what parsing `s` gives, for any `c` without a line break.
pub proof fn lemma_comment_has_no_effect(c: Seq<char>, s: Seq<char>, machine: MachineType)
    requires
        !c.contains('\n'),
    ensures
        parse_text(seq![' ', ';', ' '] + c + seq!['\n', ' '] + s, machine) == parse_text(s, machine),
{
    let a = seq![' ', ';', ' '] + c + seq!['\n', ' '];
    let u = a + s;
    assert(seq![' ', ';', ' '] + c + seq!['\n', ' '] + s =~= u);
    let nl: int = 3 + c.len() as int;
    assert(u[0] == ' ' && u[1] == ';' && u[2] == ' ' && u[nl] == '\n' && u[nl + 1] == ' ');
    lemma_find_from_at(u, 1, 1, ';');
    lemma_find_from_at(u, 0, 1, ';');
    assert forall|k: int| 0 <= k < nl implies #[trigger] u[k] != '\n' by {
        if 3 <= k {
            assert(u[k] == c[k - 3]);
            if u[k] == '\n' {
                assert(c.contains('\n'));
            }
        }
    }
    lemma_find_from_at(u, 0, nl, '\n');
    lemma_comment_line_skipped(u, 0, empty_def(), machine);
    lemma_white_skipped(u, nl + 1, empty_def(), machine);
    assert(a.len() == nl + 2);
    lemma_directives_at_shift(a, s, 0, empty_def(), machine);
}

} // verus!

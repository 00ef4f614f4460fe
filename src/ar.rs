//! Writer for GNU `ar` archives with a binary symbol index and an
//! extended-name table, built in memory.

use vstd::prelude::*;

use crate::Error;

verus! {

/// The digits of `n` in base 8 (when `b == 8`) or 10 (otherwise), most
/// significant first.
pub open spec fn radix_digits(n: nat, b: nat) -> Seq<u8>
    decreases n,
{
    let base: nat = if b == 8 {
        8
    } else {
        10
    };
    if n < base {
        seq![(48 + n) as u8]
    } else {
        radix_digits(if b == 8 {
            n / 8
        } else {
            n / 10
        }, b).push((48 + n % base) as u8)
    }
}

/// `s` left-aligned in a field of `w` bytes, filled with spaces.
pub open spec fn padded(s: Seq<u8>, w: nat) -> Seq<u8> {
    if s.len() >= w {
        s
    } else {
        s + Seq::new((w - s.len()) as nat, |i: int| 32u8)
    }
}

/// The big-endian encoding of a 32-bit value.
pub open spec fn be32(v: nat) -> Seq<u8> {
    seq![
        ((v / 0x1000000) % 256) as u8,
        ((v / 0x10000) % 256) as u8,
        ((v / 0x100) % 256) as u8,
        (v % 256) as u8,
    ]
}

/// Appends the base-`b` digits of `n`.
pub(crate) fn push_radix(out: &mut Vec<u8>, n: u64, b: u64)
    requires
        b == 8 || b == 10,
    ensures
        final(out)@ == old(out)@ + radix_digits(n as nat, b as nat),
    decreases n,
{
    if n >= b {
        push_radix(out, n / b, b);
    }
    out.push((48 + n % b) as u8);
}

/// Appends `s` left-aligned in a field of `w` bytes.
fn push_padded(out: &mut Vec<u8>, s: &[u8], w: usize)
    ensures
        final(out)@ == old(out)@ + padded(s@, w as nat),
{
    let ghost start = out@;
    let mut i: usize = 0;
    while i < s.len()
        invariant
            i <= s@.len(),
            out@ == start + s@.subrange(0, i as int),
        decreases s@.len() - i,
    {
        out.push(s[i]);
        i += 1;
        assert(s@.subrange(0, i as int) == s@.subrange(0, i - 1).push(s@[i - 1]));
    }
    assert(s@.subrange(0, s@.len() as int) == s@);
    let mut j: usize = s.len();
    while j < w
        invariant
            s@.len() <= j <= w || (j == s@.len() && j >= w),
            out@ == start + s@ + Seq::new((j - s@.len()) as nat, |k: int| 32u8),
        decreases w - j,
    {
        out.push(32u8);
        j += 1;
        assert(Seq::new((j - s@.len()) as nat, |k: int| 32u8) == Seq::new(
            (j - 1 - s@.len()) as nat,
            |k: int| 32u8,
        ).push(32u8));
    }
    if s.len() >= w {
        assert(Seq::new((j - s@.len()) as nat, |k: int| 32u8) == Seq::<u8>::empty());
        assert(start + s@ + Seq::<u8>::empty() == start + s@);
    } else {
        assert(start + s@ + Seq::new((j - s@.len()) as nat, |k: int| 32u8) == start + (s@
            + Seq::new((j - s@.len()) as nat, |k: int| 32u8)));
    }
}

/// Appends the digits of `n` in base `b`, left-aligned in a field of `w` bytes.
fn push_number(out: &mut Vec<u8>, n: u64, b: u64, w: usize)
    requires
        b == 8 || b == 10,
    ensures
        final(out)@ == old(out)@ + padded(radix_digits(n as nat, b as nat), w as nat),
{
    let mut digits: Vec<u8> = Vec::new();
    push_radix(&mut digits, n, b);
    assert(digits@ == radix_digits(n as nat, b as nat));
    push_padded(out, digits.as_slice(), w);
}

/// Appends the big-endian encoding of `v`.
fn push_be32(out: &mut Vec<u8>, v: u32)
    ensures
        final(out)@ == old(out)@ + be32(v as nat),
{
    out.push((v / 0x1000000) as u8);
    out.push(((v / 0x10000) % 256) as u8);
    out.push(((v / 0x100) % 256) as u8);
    out.push((v % 256) as u8);
    assert((v / 0x1000000) as nat == ((v as nat / 0x1000000) % 256));
}

/// The archive's global signature, `!<arch>\n`.
pub open spec fn global_header() -> Seq<u8> {
    seq![33u8, 60u8, 97u8, 114u8, 99u8, 104u8, 62u8, 10u8]
}

/// The terminator of every member header, a backquote and a newline.
pub open spec fn header_end() -> Seq<u8> {
    seq![96u8, 10u8]
}

/// The padding written after an odd-sized table: ` /\n`.
pub open spec fn table_padding() -> Seq<u8> {
    seq![32u8, 47u8, 10u8]
}

/// The 16-byte identifier field of a member header: `<id>/` for an
/// identifier of at most 15 bytes, else `/<offset>` into the name table.
pub open spec fn name_field(id: Seq<u8>, long_offset: nat) -> Seq<u8> {
    if id.len() > 15 {
        seq![47u8] + padded(radix_digits(long_offset, 10), 15)
    } else {
        padded(id.push(47u8), 16)
    }
}

/// The metadata of one archive member.
#[derive(Debug, Clone)]
pub struct Header {
    pub identifier: Vec<u8>,
    pub mtime: u64,
    pub uid: u32,
    pub gid: u32,
    pub mode: u32,
    pub size: u64,
}

/// Everything of a member header after its identifier field.
pub open spec fn header_tail(h: Header, deterministic: bool) -> Seq<u8> {
    if deterministic {
        padded(radix_digits(0, 10), 12) + padded(radix_digits(0, 10), 6) + padded(
            radix_digits(0, 10),
            6,
        ) + padded(radix_digits(0o644, 8), 8) + padded(radix_digits(h.size as nat, 10), 10)
            + header_end()
    } else {
        padded(radix_digits(h.mtime as nat, 10), 12) + padded(radix_digits(h.uid as nat, 10), 6)
            + padded(radix_digits(h.gid as nat, 10), 6) + padded(radix_digits(h.mode as nat, 8), 8)
            + padded(radix_digits(h.size as nat, 10), 10) + header_end()
    }
}

/// The bytes of a member header, given the offset of its identifier in the
/// name table (used only when the identifier is longer than 15 bytes).
pub open spec fn header_bytes(h: Header, deterministic: bool, long_offset: nat) -> Seq<u8> {
    name_field(h.identifier@, long_offset) + header_tail(h, deterministic)
}

impl Header {
    /// A header for a member called `identifier` holding `size` bytes, with
    /// zero time stamp, owner and mode.
    pub fn new(identifier: Vec<u8>, size: u64) -> (r: Header)
        ensures
            r.identifier@ == identifier@,
            r.size == size,
            r.mtime == 0,
            r.uid == 0,
            r.gid == 0,
            r.mode == 0,
    {
        Header { identifier, mtime: 0, uid: 0, gid: 0, mode: 0, size }
    }

    /// Sets the file mode.
    pub fn set_mode(&mut self, mode: u32)
        ensures
            *final(self) == (Header { mode, ..*old(self) }),
    {
        self.mode = mode;
    }

    /// The member's identifier.
    pub fn identifier(&self) -> (r: &[u8])
        ensures
            r@ == self.identifier@,
    {
        self.identifier.as_slice()
    }

    /// The member's size in bytes.
    pub fn size(&self) -> (r: u64)
        ensures
            r == self.size,
    {
        self.size
    }

    /// Appends the fields after the identifier.
    fn write_tail(&self, deterministic: bool, out: &mut Vec<u8>)
        ensures
            final(out)@ == old(out)@ + header_tail(*self, deterministic),
    {
        let ghost s0 = out@;
        let (mtime, uid, gid, mode): (u64, u64, u64, u64) = if deterministic {
            (0, 0, 0, 0o644)
        } else {
            (self.mtime, self.uid as u64, self.gid as u64, self.mode as u64)
        };
        push_number(out, mtime, 10, 12);
        let ghost s1 = out@;
        push_number(out, uid, 10, 6);
        let ghost s2 = out@;
        push_number(out, gid, 10, 6);
        let ghost s3 = out@;
        push_number(out, mode, 8, 8);
        let ghost s4 = out@;
        push_number(out, self.size, 10, 10);
        let ghost s5 = out@;
        out.push(96u8);
        out.push(10u8);
        assert(out@ =~= s5 + header_end());
        assert(out@ =~= s0 + (padded(radix_digits(mtime as nat, 10), 12) + padded(
            radix_digits(uid as nat, 10),
            6,
        ) + padded(radix_digits(gid as nat, 10), 6) + padded(radix_digits(mode as nat, 8), 8)
            + padded(radix_digits(self.size as nat, 10), 10) + header_end()));
    }

    /// Appends this header to `out`; `long_offset` is the offset of the
    /// identifier in the name table when it is longer than 15 bytes.
    fn write_gnu(&self, deterministic: bool, out: &mut Vec<u8>, long_offset: usize)
        ensures
            final(out)@ == old(out)@ + header_bytes(*self, deterministic, long_offset as nat),
    {
        let ghost start = out@;
        if self.identifier.len() > 15 {
            out.push(47u8);
            let ghost s1 = out@;
            push_number(out, long_offset as u64, 10, 15);
            assert(out@ =~= start + name_field(self.identifier@, long_offset as nat));
        } else {
            let mut field = self.identifier.clone();
            field.push(47u8);
            push_padded(out, field.as_slice(), 16);
            assert(out@ =~= start + name_field(self.identifier@, long_offset as nat));
        }
        let ghost mid = out@;
        self.write_tail(deterministic, out);
        assert(out@ =~= start + header_bytes(*self, deterministic, long_offset as nat));
    }
}

/// The views of a sequence of byte vectors.
pub open spec fn views(v: Seq<Vec<u8>>) -> Seq<Seq<u8>> {
    Seq::new(v.len(), |i: int| v[i]@)
}

/// The views of a sequence of sequences of byte vectors.
pub open spec fn views2(v: Seq<Vec<Vec<u8>>>) -> Seq<Seq<Seq<u8>>> {
    Seq::new(v.len(), |i: int| views(v[i]@))
}

/// The identifiers longer than 15 bytes, each once, in order of first
/// appearance.
pub open spec fn long_list(ids: Seq<Seq<u8>>) -> Seq<Seq<u8>>
    decreases ids.len(),
{
    if ids.len() == 0 {
        seq![]
    } else {
        let prev = long_list(ids.drop_last());
        if ids.last().len() > 15 && !prev.contains(ids.last()) {
            prev.push(ids.last())
        } else {
            prev
        }
    }
}

/// The entries of the name table: each identifier followed by `/\n`.
pub open spec fn name_entries(ls: Seq<Seq<u8>>) -> Seq<u8>
    decreases ls.len(),
{
    if ls.len() == 0 {
        seq![]
    } else {
        name_entries(ls.drop_last()) + ls.last() + seq![47u8, 10u8]
    }
}

/// `s`, followed by ` /\n` when its length is odd.
pub open spec fn even_padded(s: Seq<u8>) -> Seq<u8> {
    if s.len() % 2 == 1 {
        s + table_padding()
    } else {
        s
    }
}

/// The extended-name table member: empty when no identifier is long.
pub open spec fn name_table_member(ids: Seq<Seq<u8>>) -> Seq<u8> {
    let t = even_padded(name_entries(long_list(ids)));
    if long_list(ids).len() == 0 {
        seq![]
    } else {
        padded(seq![47u8, 47u8], 48) + padded(radix_digits(t.len(), 10), 10) + header_end() + t
    }
}

/// The number of symbols over all members.
pub open spec fn sym_count(st: Seq<Seq<Seq<u8>>>) -> nat
    decreases st.len(),
{
    if st.len() == 0 {
        0
    } else {
        sym_count(st.drop_last()) + st.last().len()
    }
}

/// Each name followed by a NUL byte.
pub open spec fn cstrings(ss: Seq<Seq<u8>>) -> Seq<u8>
    decreases ss.len(),
{
    if ss.len() == 0 {
        seq![]
    } else {
        cstrings(ss.drop_last()) + ss.last() + seq![0u8]
    }
}

/// The NUL-terminated names of all symbols, member by member.
pub open spec fn names_blob(st: Seq<Seq<Seq<u8>>>) -> Seq<u8>
    decreases st.len(),
{
    if st.len() == 0 {
        seq![]
    } else {
        names_blob(st.drop_last()) + cstrings(st.last())
    }
}

/// The placeholder written for a member offset until the member is appended.
pub open spec fn sentinel() -> Seq<u8> {
    be32(0xcafebabe)
}

/// `n` placeholders.
pub open spec fn sentinels(n: nat) -> Seq<u8>
    decreases n,
{
    if n == 0 {
        seq![]
    } else {
        sentinels((n - 1) as nat) + sentinel()
    }
}

/// The payload of the symbol index before any offset is filled in.
pub open spec fn symtab_payload(st: Seq<Seq<Seq<u8>>>) -> Seq<u8> {
    even_padded(be32(sym_count(st)) + sentinels(sym_count(st)) + names_blob(st))
}

/// The header of the symbol index member, for a payload of `size` bytes.
pub open spec fn symtab_header(size: nat) -> Seq<u8> {
    padded(seq![47u8], 16) + padded(radix_digits(0, 10), 12) + padded(radix_digits(0, 10), 6)
        + padded(radix_digits(0, 10), 6) + padded(radix_digits(0, 8), 8) + padded(
        radix_digits(size, 10),
        10,
    ) + header_end()
}

/// The symbol index member: present whenever the member list is non-empty.
pub open spec fn symtab_member(st: Seq<Seq<Seq<u8>>>) -> Seq<u8> {
    if st.len() == 0 {
        seq![]
    } else {
        symtab_header(symtab_payload(st).len()) + symtab_payload(st)
    }
}

/// Where the first placeholder of the symbol index stands.
pub open spec fn symtab_first_slot(st: Seq<Seq<Seq<u8>>>) -> nat {
    8 + symtab_header(symtab_payload(st).len()).len() + 4
}

/// Whether position `i` lies outside the placeholders of the symbol index.
pub open spec fn outside_slots(st: Seq<Seq<Seq<u8>>>, i: int) -> bool {
    st.len() == 0 || i < symtab_first_slot(st) || symtab_first_slot(st) + 4 * sym_count(st) <= i
}

/// What an archive holds before its first member.
pub open spec fn archive_start(ids: Seq<Seq<u8>>, st: Seq<Seq<Seq<u8>>>) -> Seq<u8> {
    global_header() + symtab_member(st) + name_table_member(ids)
}

/// Builder of a GNU archive in memory.
///
/// The symbol index is written first with placeholders; each member's
/// offset is filled in when that member is appended, so members must be
/// appended in the order in which their symbols were listed.
pub struct GnuBuilder {
    buffer: Vec<u8>,
    deterministic: bool,
    identifiers: Vec<Vec<u8>>,
    long_ids: Vec<Vec<u8>>,
    long_offsets: Vec<usize>,
    symbol_table_relocations: Vec<Vec<usize>>,
    symbol_index: usize,
    /// The symbols listed for each member.
    symbols: Ghost<Seq<Seq<Seq<u8>>>>,
    /// Where the first placeholder stands.
    first_slot: Ghost<nat>,
    /// Where the name table's entries start.
    table_start: Ghost<nat>,
    /// The length of everything before the first member.
    prefix_len: Ghost<nat>,
    /// Where each appended member's header starts.
    member_offsets: Ghost<Seq<nat>>,
    /// The header of each appended member.
    member_headers: Ghost<Seq<Seq<u8>>>,
}

/// Appends all of `s`.
fn extend(out: &mut Vec<u8>, s: &[u8])
    ensures
        final(out)@ == old(out)@ + s@,
{
    let ghost start = out@;
    let mut i: usize = 0;
    while i < s.len()
        invariant
            i <= s@.len(),
            out@ == start + s@.subrange(0, i as int),
        decreases s@.len() - i,
    {
        out.push(s[i]);
        i += 1;
        assert(s@.subrange(0, i as int) == s@.subrange(0, i - 1).push(s@[i - 1]));
    }
    assert(s@.subrange(0, s@.len() as int) == s@);
}

/// Whether two byte strings are equal.
fn bytes_eq(a: &[u8], b: &[u8]) -> (r: bool)
    ensures
        r == (a@ == b@),
{
    if a.len() != b.len() {
        return false;
    }
    let mut i: usize = 0;
    while i < a.len()
        invariant
            i <= a@.len(),
            a@.len() == b@.len(),
            forall|j: int| 0 <= j < i ==> a@[j] == b@[j],
        decreases a@.len() - i,
    {
        if a[i] != b[i] {
            return false;
        }
        i += 1;
    }
    assert(a@ =~= b@);
    true
}

/// The position of `id` in `list`, if it is there.
fn find_id(list: &Vec<Vec<u8>>, id: &[u8]) -> (r: Option<usize>)
    ensures
        match r {
            Some(k) => k < list@.len() && list@[k as int]@ == id@,
            None => !views(list@).contains(id@),
        },
{
    let mut k: usize = 0;
    while k < list.len()
        invariant
            k <= list@.len(),
            forall|j: int| 0 <= j < k ==> list@[j]@ != id@,
        decreases list@.len() - k,
    {
        if bytes_eq(list[k].as_slice(), id) {
            return Some(k);
        }
        k += 1;
    }
    assert forall|j: int| 0 <= j < views(list@).len() implies views(list@)[j] != id@ by {}
    None
}

proof fn lemma_sentinel_at(n: nat, j: nat)
    requires
        j < n,
    ensures
        sentinels(n).len() == 4 * n,
        sentinels(n).subrange(4 * j as int, (4 * j + 4) as int) == sentinel(),
    decreases n,
{
    lemma_sentinels_len(n);
    if j + 1 < n {
        lemma_sentinel_at((n - 1) as nat, j);
        lemma_sentinels_len((n - 1) as nat);
        assert(sentinels(n).subrange(4 * j as int, (4 * j + 4) as int) == sentinels(
            (n - 1) as nat,
        ).subrange(4 * j as int, (4 * j + 4) as int));
    } else {
        lemma_sentinels_len((n - 1) as nat);
        assert(sentinels(n).subrange(4 * j as int, (4 * j + 4) as int) =~= sentinel());
    }
}

pub proof fn lemma_sentinels_len(n: nat)
    ensures
        sentinels(n).len() == 4 * n,
    decreases n,
{
    if n > 0 {
        lemma_sentinels_len((n - 1) as nat);
    }
}

pub proof fn lemma_sym_count_prefix(st: Seq<Seq<Seq<u8>>>, m: int)
    requires
        0 <= m < st.len(),
    ensures
        sym_count(st.take(m)) + st[m].len() <= sym_count(st),
    decreases st.len(),
{
    if m == st.len() - 1 {
        assert(st.take(m) == st.drop_last());
    } else {
        lemma_sym_count_prefix(st.drop_last(), m);
        assert(st.drop_last().take(m) == st.take(m));
    }
}

proof fn lemma_name_entry(ls: Seq<Seq<u8>>, k: int)
    requires
        0 <= k < ls.len(),
    ensures
        name_entries(ls.take(k)).len() + ls[k].len() + 2 <= name_entries(ls).len(),
        name_entries(ls).subrange(
            name_entries(ls.take(k)).len() as int,
            (name_entries(ls.take(k)).len() + ls[k].len() + 2) as int,
        ) == ls[k] + seq![47u8, 10u8],
    decreases ls.len(),
{
    let o = name_entries(ls.take(k)).len() as int;
    if k == ls.len() - 1 {
        assert(ls.take(k) == ls.drop_last());
        assert(name_entries(ls).subrange(o, o + ls[k].len() + 2) =~= ls[k] + seq![47u8, 10u8]);
    } else {
        lemma_name_entry(ls.drop_last(), k);
        assert(ls.drop_last().take(k) == ls.take(k));
        let prev = name_entries(ls.drop_last());
        assert(name_entries(ls).subrange(o, o + ls[k].len() + 2) =~= prev.subrange(
            o,
            o + ls[k].len() + 2,
        ));
    }
}

proof fn lemma_long_list(ids: Seq<Seq<u8>>)
    ensures
        long_list(ids).no_duplicates(),
        forall|x: Seq<u8>| long_list(ids).contains(x) <==> (ids.contains(x) && x.len() > 15),
    decreases ids.len(),
{
    if ids.len() > 0 {
        let prev = ids.drop_last();
        lemma_long_list(prev);
        assert forall|x: Seq<u8>| long_list(ids).contains(x) <==> (ids.contains(x) && x.len()
            > 15) by {
            let ll = long_list(prev);
            if ids.contains(x) && x.len() > 15 {
                let j = choose|j: int| 0 <= j < ids.len() && ids[j] == x;
                if j < ids.len() - 1 {
                    assert(prev[j] == x);
                    assert(prev.contains(x));
                } else {
                    assert(ids.last() == x);
                }
                if ll.contains(x) {
                    let i = choose|i: int| 0 <= i < ll.len() && ll[i] == x;
                    assert(long_list(ids)[i] == x);
                } else {
                    assert(long_list(ids)[ll.len() as int] == x);
                }
            }
            if long_list(ids).contains(x) {
                if long_list(prev).contains(x) {
                    assert(prev.contains(x));
                    let j = choose|j: int| 0 <= j < prev.len() && prev[j] == x;
                    assert(ids[j] == x);
                } else {
                    assert(ids[ids.len() - 1] == x);
                }
            }
        }
    }
}

/// Where the `k`-th placeholder of member `m` stands.
pub open spec fn slot_at(first_slot: nat, st: Seq<Seq<Seq<u8>>>, m: int, k: int) -> nat {
    first_slot + 4 * (sym_count(st.take(m)) + k) as nat
}

impl GnuBuilder {
    /// The bytes written so far.
    pub closed spec fn bytes(&self) -> Seq<u8> {
        self.buffer@
    }

    /// Whether member headers carry zero metadata.
    pub closed spec fn is_deterministic(&self) -> bool {
        self.deterministic
    }

    /// The identifiers declared at construction.
    pub closed spec fn declared(&self) -> Seq<Seq<u8>> {
        views(self.identifiers@)
    }

    /// The symbols listed for each member at construction.
    pub closed spec fn symbols(&self) -> Seq<Seq<Seq<u8>>> {
        self.symbols@
    }

    /// The long identifiers, in the order of the name table.
    pub closed spec fn long_names(&self) -> Seq<Seq<u8>> {
        views(self.long_ids@)
    }

    /// The offset of each long identifier within the name table.
    pub closed spec fn long_offset(&self, k: int) -> nat {
        self.long_offsets@[k] as nat
    }

    /// Where the name table's entries start in the archive.
    pub closed spec fn table_start(&self) -> nat {
        self.table_start@
    }

    /// Where the placeholder for the `k`-th symbol of member `m` stands.
    pub closed spec fn slot(&self, m: int, k: int) -> nat {
        slot_at(self.first_slot@, self.symbols@, m, k)
    }

    /// How many members have had their placeholders filled in.
    pub closed spec fn index(&self) -> nat {
        self.symbol_index as nat
    }

    /// Where the header of each appended member starts.
    pub closed spec fn member_offsets(&self) -> Seq<nat> {
        self.member_offsets@
    }

    /// The header of each appended member.
    pub closed spec fn member_headers(&self) -> Seq<Seq<u8>> {
        self.member_headers@
    }

    /// The length of everything before the first member.
    pub closed spec fn prefix_len(&self) -> nat {
        self.prefix_len@
    }

    /// The builder's invariant.
    pub closed spec fn wf(&self) -> bool {
        let st = self.symbols@;
        let buf = self.buffer@;
        let ln = views(self.long_ids@);
        &&& self.symbol_table_relocations@.len() == st.len()
        &&& forall|m: int|
            0 <= m < st.len() ==> #[trigger] self.symbol_table_relocations@[m]@.len()
                == st[m].len()
        &&& forall|m: int, k: int|
            0 <= m < st.len() && 0 <= k < st[m].len()
                ==> #[trigger] self.symbol_table_relocations@[m]@[k] == self.slot(m, k)
        &&& st.len() > 0 ==> self.first_slot@ + 4 * sym_count(st) <= self.table_start@
        &&& self.table_start@ <= self.prefix_len@
        &&& self.prefix_len@ <= buf.len()
        &&& self.prefix_len@ == archive_start(views(self.identifiers@), st).len()
        &&& st.len() > 0 ==> self.first_slot@ == symtab_first_slot(st)
        &&& forall|i: int|
            0 <= i < self.prefix_len@ && outside_slots(st, i) ==> #[trigger] buf[i]
                == archive_start(views(self.identifiers@), st)[i]
        &&& ln == long_list(views(self.identifiers@))
        &&& self.long_offsets@.len() == ln.len()
        &&& forall|k: int|
            0 <= k < ln.len() ==> #[trigger] self.long_offsets@[k] == name_entries(
                ln.take(k),
            ).len()
        &&& forall|k: int|
            0 <= k < ln.len() ==> self.table_start@ + #[trigger] self.long_offsets@[k] + ln[k].len() + 2
                <= self.prefix_len@ && buf.subrange(
                (self.table_start@ + self.long_offsets@[k]) as int,
                (self.table_start@ + self.long_offsets@[k] + ln[k].len() + 2) as int,
            ) == ln[k] + seq![47u8, 10u8]
        &&& self.member_offsets@.len() == self.member_headers@.len()
        &&& self.symbol_index as nat == if self.member_offsets@.len() < st.len() {
            self.member_offsets@.len()
        } else {
            st.len()
        }
        &&& forall|a: int|
            0 <= a < self.member_offsets@.len() ==> self.prefix_len@
                <= #[trigger] self.member_offsets@[a] && self.member_offsets@[a]
                + self.member_headers@[a].len() <= buf.len() && buf.subrange(
                self.member_offsets@[a] as int,
                (self.member_offsets@[a] + self.member_headers@[a].len()) as int,
            ) == self.member_headers@[a]
        &&& forall|m: int, k: int|
            0 <= m < self.symbol_index && 0 <= k < st[m].len() ==> #[trigger] buf.subrange(
                self.slot(m, k) as int,
                (self.slot(m, k) + 4) as int,
            ) == be32(self.member_offsets@[m])
        &&& forall|m: int, k: int|
            self.symbol_index <= m < st.len() && 0 <= k < st[m].len()
                ==> #[trigger] buf.subrange(self.slot(m, k) as int, (self.slot(m, k) + 4) as int)
                == sentinel()
    }
}

/// The long identifiers of `identifiers`, their offsets in the name table,
/// and the table's entries.
fn collect_long_names(identifiers: &Vec<Vec<u8>>) -> (r: (Vec<Vec<u8>>, Vec<usize>, Vec<u8>))
    ensures
        views(r.0@) == long_list(views(identifiers@)),
        r.1@.len() == r.0@.len(),
        forall|k: int|
            0 <= k < r.1@.len() ==> #[trigger] r.1@[k] == name_entries(views(r.0@).take(k)).len(),
        r.2@ == name_entries(views(r.0@)),
{
    let mut long_ids: Vec<Vec<u8>> = Vec::new();
    let mut long_offsets: Vec<usize> = Vec::new();
    let mut table: Vec<u8> = Vec::new();
    let mut i: usize = 0;
    while i < identifiers.len()
        invariant
            i <= identifiers@.len(),
            views(long_ids@) == long_list(views(identifiers@).take(i as int)),
            table@ == name_entries(views(long_ids@)),
            long_offsets@.len() == long_ids@.len(),
            forall|k: int|
                0 <= k < long_offsets@.len() ==> #[trigger] long_offsets@[k] == name_entries(
                    views(long_ids@).take(k),
                ).len(),
        decreases identifiers@.len() - i,
    {
        let ghost ids = views(identifiers@);
        let ghost before = views(long_ids@);
        assert(ids.take(i + 1).drop_last() == ids.take(i as int));
        assert(ids.take(i + 1).last() == identifiers@[i as int]@);
        let id = &identifiers[i];
        if id.len() > 15 {
            match find_id(&long_ids, id.as_slice()) {
                Some(k) => {
                    assert(before[k as int] == id@);
                    assert(before.contains(id@));
                },
                None => {
                    long_offsets.push(table.len());
                    extend(&mut table, id.as_slice());
                    table.push(47u8);
                    table.push(10u8);
                    long_ids.push(id.clone());
                    let ghost after = views(long_ids@);
                    assert(after == before.push(id@));
                    assert(after.drop_last() == before);
                    assert(table@ =~= name_entries(after));
                    assert forall|k: int| 0 <= k < long_offsets@.len() implies #[trigger] long_offsets@[k]
                        == name_entries(after.take(k)).len() by {
                        if k < before.len() {
                            assert(after.take(k) == before.take(k));
                        } else {
                            assert(after.take(k) == before);
                        }
                    }
                },
            }
        }
        i += 1;
    }
    assert(views(identifiers@).take(i as int) == views(identifiers@));
    (long_ids, long_offsets, table)
}

/// The symbol count, the placeholders, the NUL-terminated names and the
/// position of each placeholder relative to the first.
fn collect_symbols(symbol_table: &Vec<Vec<Vec<u8>>>) -> (r: (usize, Vec<u8>, Vec<u8>, Vec<Vec<usize>>))
    ensures
        r.0 == sym_count(views2(symbol_table@)),
        r.1@ == sentinels(r.0 as nat),
        r.2@ == names_blob(views2(symbol_table@)),
        r.3@.len() == symbol_table@.len(),
        forall|m: int|
            0 <= m < symbol_table@.len() ==> #[trigger] r.3@[m]@.len() == symbol_table@[m]@.len(),
        forall|m: int, k: int|
            0 <= m < symbol_table@.len() && 0 <= k < symbol_table@[m]@.len() ==> #[trigger] r.3@[m]@[k]
                == 4 * (sym_count(views2(symbol_table@).take(m)) + k),
{
    let ghost st = views2(symbol_table@);
    let mut count: usize = 0;
    let mut sents: Vec<u8> = Vec::new();
    let mut names: Vec<u8> = Vec::new();
    let mut rel: Vec<Vec<usize>> = Vec::new();
    let mut m: usize = 0;
    while m < symbol_table.len()
        invariant
            m <= symbol_table@.len(),
            st == views2(symbol_table@),
            count == sym_count(st.take(m as int)),
            sents@ == sentinels(count as nat),
            names@ == names_blob(st.take(m as int)),
            rel@.len() == m,
            forall|j: int| 0 <= j < m ==> #[trigger] rel@[j]@.len() == st[j].len(),
            forall|j: int, k: int|
                0 <= j < m && 0 <= k < st[j].len() ==> #[trigger] rel@[j]@[k] == 4 * (sym_count(
                    st.take(j),
                ) + k),
        decreases symbol_table@.len() - m,
    {
        let syms = &symbol_table[m];
        let ghost base = count as nat;
        let ghost names0 = names@;
        let mut row: Vec<usize> = Vec::new();
        let mut k: usize = 0;
        while k < syms.len()
            invariant
                k <= syms@.len(),
                syms@.len() == st[m as int].len(),
                views(syms@) == st[m as int],
                count == base + k,
                sents@ == sentinels(count as nat),
                names@ == names0 + cstrings(st[m as int].take(k as int)),
                row@.len() == k,
                forall|q: int| 0 <= q < k ==> #[trigger] row@[q] == 4 * (base + q),
            decreases syms@.len() - k,
        {
            proof {
                lemma_sentinels_len(count as nat);
            }
            row.push(sents.len());
            push_be32(&mut sents, 0xcafebabe);
            extend(&mut names, syms[k].as_slice());
            names.push(0u8);
            assert(st[m as int].take(k + 1).drop_last() == st[m as int].take(k as int));
            assert(names@ =~= names0 + cstrings(st[m as int].take(k + 1)));
            count += 1;
            k += 1;
        }
        assert(st[m as int].take(k as int) == st[m as int]);
        assert(st.take(m + 1).drop_last() == st.take(m as int));
        assert(names@ =~= names_blob(st.take(m + 1)));
        rel.push(row);
        m += 1;
        assert forall|j: int, q: int|
            0 <= j < m && 0 <= q < st[j].len() implies #[trigger] rel@[j]@[q] == 4 * (sym_count(
                st.take(j),
            ) + q) by {
            if j == m - 1 {
                assert(st.take(j) == st.take(m - 1));
            }
        }
    }
    assert(st.take(m as int) == st);
    (count, sents, names, rel)
}

/// Appends the header of the symbol index member.
fn write_symtab_header(out: &mut Vec<u8>, size: usize)
    ensures
        final(out)@ == old(out)@ + symtab_header(size as nat),
{
    let ghost s0 = out@;
    let slash: [u8; 1] = [47u8];
    push_padded(out, slash.as_slice(), 16);
    assert(slash@ == seq![47u8]);
    push_number(out, 0, 10, 12);
    push_number(out, 0, 10, 6);
    push_number(out, 0, 10, 6);
    push_number(out, 0, 8, 8);
    push_number(out, size as u64, 10, 10);
    out.push(96u8);
    out.push(10u8);
    assert(out@ =~= s0 + symtab_header(size as nat));
}

/// Appends the header of the name table member and the table itself.
fn write_name_table(out: &mut Vec<u8>, table: &[u8])
    ensures
        final(out)@ == old(out)@ + padded(seq![47u8, 47u8], 48) + padded(
            radix_digits(table@.len(), 10),
            10,
        ) + header_end() + table@,
{
    let ghost s0 = out@;
    let slashes: [u8; 2] = [47u8, 47u8];
    assert(slashes@ == seq![47u8, 47u8]);
    push_padded(out, slashes.as_slice(), 48);
    push_number(out, table.len() as u64, 10, 10);
    out.push(96u8);
    out.push(10u8);
    extend(out, table);
    assert(out@ =~= s0 + padded(seq![47u8, 47u8], 48) + padded(radix_digits(table@.len(), 10), 10)
        + header_end() + table@);
}

/// Pads `v` with ` /\n` when its length is odd.
fn pad_table(v: &mut Vec<u8>)
    ensures
        final(v)@ == even_padded(old(v)@),
{
    if v.len() % 2 == 1 {
        v.push(32u8);
        v.push(47u8);
        v.push(10u8);
        assert(v@ =~= even_padded(old(v)@));
    }
}

/// Shifts every relative placeholder position by `base`.
fn shift_positions(rel: &Vec<Vec<usize>>, base: usize, Ghost(st): Ghost<Seq<Seq<Seq<u8>>>>) -> (r: Vec<Vec<usize>>)
    requires
        rel@.len() == st.len(),
        forall|m: int| 0 <= m < st.len() ==> #[trigger] rel@[m]@.len() == st[m].len(),
        forall|m: int, k: int|
            0 <= m < st.len() && 0 <= k < st[m].len() ==> #[trigger] rel@[m]@[k] == 4 * (sym_count(
                st.take(m),
            ) + k),
        base + 4 * sym_count(st) <= usize::MAX,
    ensures
        r@.len() == st.len(),
        forall|m: int| 0 <= m < st.len() ==> #[trigger] r@[m]@.len() == st[m].len(),
        forall|m: int, k: int|
            0 <= m < st.len() && 0 <= k < st[m].len() ==> #[trigger] r@[m]@[k] == base + 4 * (
            sym_count(st.take(m)) + k),
{
    let mut out: Vec<Vec<usize>> = Vec::new();
    let mut m: usize = 0;
    while m < rel.len()
        invariant
            m <= rel@.len(),
            rel@.len() == st.len(),
            forall|j: int| 0 <= j < st.len() ==> #[trigger] rel@[j]@.len() == st[j].len(),
            forall|j: int, k: int|
                0 <= j < st.len() && 0 <= k < st[j].len() ==> #[trigger] rel@[j]@[k] == 4 * (
                sym_count(st.take(j)) + k),
            base + 4 * sym_count(st) <= usize::MAX,
            out@.len() == m,
            forall|j: int| 0 <= j < m ==> #[trigger] out@[j]@.len() == st[j].len(),
            forall|j: int, k: int|
                0 <= j < m && 0 <= k < st[j].len() ==> #[trigger] out@[j]@[k] == base + 4 * (
                sym_count(st.take(j)) + k),
        decreases rel@.len() - m,
    {
        let row = &rel[m];
        let mut shifted: Vec<usize> = Vec::new();
        let mut k: usize = 0;
        proof {
            lemma_sym_count_prefix(st, m as int);
        }
        while k < row.len()
            invariant
                k <= row@.len(),
                row@ == rel@[m as int]@,
                row@.len() == st[m as int].len(),
                forall|q: int|
                    0 <= q < row@.len() ==> #[trigger] row@[q] == 4 * (sym_count(st.take(m as int)) + q),
                sym_count(st.take(m as int)) + st[m as int].len() <= sym_count(st),
                base + 4 * sym_count(st) <= usize::MAX,
                shifted@.len() == k,
                forall|q: int|
                    0 <= q < k ==> #[trigger] shifted@[q] == base + 4 * (sym_count(st.take(m as int)) + q),
            decreases row@.len() - k,
        {
            shifted.push(base + row[k]);
            k += 1;
        }
        out.push(shifted);
        m += 1;
    }
    out
}

/// Appends the symbol index member; returns the position of each
/// placeholder, member by member.
fn write_symbol_index(out: &mut Vec<u8>, symbol_table: &Vec<Vec<Vec<u8>>>) -> (r: Result<
    Vec<Vec<usize>>,
    Error,
>)
    requires
        symbol_table@.len() > 0,
    ensures
        (r is Ok) <==> sym_count(views2(symbol_table@)) <= u32::MAX,
        r matches Err(e) ==> e == Error::TooManySymbols,
        r matches Ok(relocs) ==> {
            let st = views2(symbol_table@);
            let fs = (old(out)@.len() + symtab_header(symtab_payload(st).len()).len() + 4) as nat;
            &&& final(out)@ == old(out)@ + symtab_member(st)
            &&& relocs@.len() == st.len()
            &&& forall|m: int| 0 <= m < st.len() ==> #[trigger] relocs@[m]@.len() == st[m].len()
            &&& forall|m: int, k: int|
                0 <= m < st.len() && 0 <= k < st[m].len() ==> #[trigger] relocs@[m]@[k]
                    == slot_at(fs, st, m, k)
            &&& fs + 4 * sym_count(st) <= final(out)@.len()
            &&& forall|m: int, k: int|
                0 <= m < st.len() && 0 <= k < st[m].len() ==> #[trigger] final(out)@.subrange(
                    slot_at(fs, st, m, k) as int,
                    (slot_at(fs, st, m, k) + 4) as int,
                ) == sentinel()
        },
{
    let ghost st = views2(symbol_table@);
    let (count, sents, names, rel) = collect_symbols(symbol_table);
    if count > 0xffff_ffffusize {
        return Err(Error::TooManySymbols);
    }
    let mut payload: Vec<u8> = Vec::new();
    push_be32(&mut payload, count as u32);
    extend(&mut payload, sents.as_slice());
    extend(&mut payload, names.as_slice());
    pad_table(&mut payload);
    assert(payload@ == symtab_payload(st));
    proof {
        lemma_sentinels_len(count as nat);
    }
    let ghost s0 = out@;
    write_symtab_header(out, payload.len());
    let base = out.len();
    extend(out, payload.as_slice());
    let total = out.len();
    assert(total == base + payload@.len());
    assert(out@ =~= s0 + symtab_member(st));
    let relocs = shift_positions(&rel, base + 4, Ghost(st));
    let ghost fs = (base + 4) as nat;
    assert forall|m: int, k: int|
        0 <= m < st.len() && 0 <= k < st[m].len() implies #[trigger] out@.subrange(
        slot_at(fs, st, m, k) as int,
        (slot_at(fs, st, m, k) + 4) as int,
    ) == sentinel() by {
        lemma_sym_count_prefix(st, m);
        let j = (sym_count(st.take(m)) + k) as nat;
        lemma_sentinel_at(count as nat, j);
        assert(out@.subrange(slot_at(fs, st, m, k) as int, (slot_at(fs, st, m, k) + 4) as int)
            =~= sentinels(count as nat).subrange(4 * j as int, (4 * j + 4) as int));
    }
    Ok(relocs)
}

/// Appends the name table member for the long identifiers `long_ids`, whose
/// entries are `table`; returns where the entries start.
fn write_long_names(out: &mut Vec<u8>, long_ids: &Vec<Vec<u8>>, long_offsets: &Vec<usize>, table: Vec<u8>) -> (r: usize)
    requires
        long_ids@.len() > 0,
        table@ == name_entries(views(long_ids@)),
        long_offsets@.len() == long_ids@.len(),
        forall|k: int|
            0 <= k < long_offsets@.len() ==> #[trigger] long_offsets@[k] == name_entries(
                views(long_ids@).take(k),
            ).len(),
    ensures
        old(out)@.len() <= r <= final(out)@.len(),
        final(out)@ == old(out)@ + padded(seq![47u8, 47u8], 48) + padded(
            radix_digits(even_padded(table@).len(), 10),
            10,
        ) + header_end() + even_padded(table@),
        forall|k: int|
            0 <= k < long_ids@.len() ==> r + #[trigger] long_offsets@[k] + long_ids@[k]@.len() + 2
                <= final(out)@.len() && final(out)@.subrange(
                (r + long_offsets@[k]) as int,
                (r + long_offsets@[k] + long_ids@[k]@.len() + 2) as int,
            ) == long_ids@[k]@ + seq![47u8, 10u8],
{
    let mut t = table;
    pad_table(&mut t);
    write_name_table(out, t.as_slice());
    let start = out.len() - t.len();
    let ghost ln = views(long_ids@);
    assert forall|k: int| 0 <= k < long_ids@.len() implies start + #[trigger] long_offsets@[k]
        + long_ids@[k]@.len() + 2 <= out@.len() && out@.subrange(
        (start + long_offsets@[k]) as int,
        (start + long_offsets@[k] + long_ids@[k]@.len() + 2) as int,
    ) == long_ids@[k]@ + seq![47u8, 10u8] by {
        lemma_name_entry(ln, k);
        assert(ln[k] == long_ids@[k]@);
        let o = long_offsets@[k] as int;
        assert(out@.subrange(start + o, start + o + ln[k].len() + 2) =~= name_entries(ln).subrange(
            o,
            o + ln[k].len() + 2,
        ));
    }
    assert(out@ =~= old(out)@ + padded(seq![47u8, 47u8], 48) + padded(
        radix_digits(even_padded(table@).len(), 10),
        10,
    ) + header_end() + even_padded(table@));
    start
}

impl GnuBuilder {
    /// Starts an archive: writes the signature, the symbol index with a
    /// placeholder for each symbol, and the name table of the identifiers
    /// longer than 15 bytes. `identifiers` lists every member that will be
    /// appended; `symbol_table` lists, member by member in the order of
    /// appending, the symbols that the index points at that member.
    pub fn new_with_symbol_table(
        deterministic: bool,
        identifiers: Vec<Vec<u8>>,
        symbol_table: Vec<Vec<Vec<u8>>>,
    ) -> (r: Result<GnuBuilder, Error>)
        ensures
            (r is Ok) <==> sym_count(views2(symbol_table@)) <= u32::MAX,
            r matches Err(e) ==> e == Error::TooManySymbols,
            r matches Ok(b) ==> {
                &&& b.wf()
                &&& b.bytes() == archive_start(views(identifiers@), views2(symbol_table@))
                &&& b.prefix_len() == b.bytes().len()
                &&& b.declared() == views(identifiers@)
                &&& b.symbols() == views2(symbol_table@)
                &&& b.index() == 0
                &&& b.member_offsets().len() == 0
                &&& b.member_headers().len() == 0
                &&& b.is_deterministic() == deterministic
            },
    {
        let ghost ids = views(identifiers@);
        let ghost st = views2(symbol_table@);
        let (long_ids, long_offsets, table) = collect_long_names(&identifiers);
        let mut buffer: Vec<u8> = Vec::new();
        buffer.push(33u8);
        buffer.push(60u8);
        buffer.push(97u8);
        buffer.push(114u8);
        buffer.push(99u8);
        buffer.push(104u8);
        buffer.push(62u8);
        buffer.push(10u8);
        assert(buffer@ =~= global_header());
        let mut relocs: Vec<Vec<usize>> = Vec::new();
        let ghost mut first_slot: nat = 0;
        if symbol_table.len() > 0 {
            let ghost b0 = buffer@.len();
            match write_symbol_index(&mut buffer, &symbol_table) {
                Ok(rl) => {
                    relocs = rl;
                },
                Err(e) => {
                    return Err(e);
                },
            }
            proof {
                first_slot = (b0 + symtab_header(symtab_payload(st).len()).len() + 4) as nat;
            }
        }
        assert(buffer@ =~= global_header() + symtab_member(st));
        let ghost after_symbols = buffer@;
        let mut table_start: usize = buffer.len();
        if long_ids.len() > 0 {
            table_start = write_long_names(&mut buffer, &long_ids, &long_offsets, table);
        }
        assert(buffer@ =~= after_symbols + name_table_member(ids));
        assert(buffer@.subrange(0, after_symbols.len() as int) =~= after_symbols);
        let ghost prefix_len = buffer@.len();
        let b = GnuBuilder {
            buffer,
            deterministic,
            identifiers,
            long_ids,
            long_offsets,
            symbol_table_relocations: relocs,
            symbol_index: 0,
            symbols: Ghost(st),
            first_slot: Ghost(first_slot),
            table_start: Ghost(table_start as nat),
            prefix_len: Ghost(prefix_len),
            member_offsets: Ghost(Seq::empty()),
            member_headers: Ghost(Seq::empty()),
        };
        assert forall|m: int, k: int|
            0 <= m < st.len() && 0 <= k < st[m].len() implies #[trigger] b.buffer@.subrange(
            b.slot(m, k) as int,
            (b.slot(m, k) + 4) as int,
        ) == sentinel() by {
            lemma_sym_count_prefix(st, m);
            assert(b.buffer@.subrange(b.slot(m, k) as int, (b.slot(m, k) + 4) as int)
                == after_symbols.subrange(b.slot(m, k) as int, (b.slot(m, k) + 4) as int));
        }
        assert forall|k: int| 0 <= k < b.long_ids@.len() implies b.table_start@ + #[trigger] b.long_offsets@[k] + views(b.long_ids@)[k].len() + 2 <= b.prefix_len@ && b.buffer@.subrange(
            (b.table_start@ + b.long_offsets@[k]) as int,
            (b.table_start@ + b.long_offsets@[k] + views(b.long_ids@)[k].len() + 2) as int,
        ) == views(b.long_ids@)[k] + seq![47u8, 10u8] by {
            assert(views(b.long_ids@)[k] == b.long_ids@[k]@);
        }
        Ok(b)
    }
}

proof fn lemma_slot_order(fs: nat, st: Seq<Seq<Seq<u8>>>, m: int, k: int, m2: int, k2: int)
    requires
        0 <= m < st.len(),
        0 <= k < st[m].len(),
        0 <= m2 < st.len(),
        0 <= k2 < st[m2].len(),
        m < m2 || (m == m2 && k < k2),
    ensures
        slot_at(fs, st, m, k) + 4 <= slot_at(fs, st, m2, k2),
{
    if m < m2 {
        lemma_sym_count_prefix(st.take(m2), m);
        assert(st.take(m2).take(m) == st.take(m));
        assert(st.take(m2)[m] == st[m]);
    }
}

proof fn lemma_slot_bound(fs: nat, st: Seq<Seq<Seq<u8>>>, m: int, k: int)
    requires
        0 <= m < st.len(),
        0 <= k < st[m].len(),
    ensures
        slot_at(fs, st, m, k) + 4 <= fs + 4 * sym_count(st),
{
    lemma_sym_count_prefix(st, m);
}

/// Overwrites four bytes at `p` with the big-endian encoding of `v`.
fn set_be32(buf: &mut Vec<u8>, p: usize, v: u32)
    requires
        p + 4 <= old(buf)@.len(),
    ensures
        final(buf)@.len() == old(buf)@.len(),
        final(buf)@.subrange(p as int, p + 4) == be32(v as nat),
        forall|i: int|
            0 <= i < old(buf)@.len() && (i < p || p + 4 <= i) ==> #[trigger] final(buf)@[i]
                == old(buf)@[i],
{
    let n = buf.len();
    assert(p + 4 <= n);
    buf.set(p, (v / 0x1000000) as u8);
    buf.set(p + 1, ((v / 0x10000) % 256) as u8);
    buf.set(p + 2, ((v / 0x100) % 256) as u8);
    buf.set(p + 3, (v % 256) as u8);
    assert(buf@.subrange(p as int, p + 4) =~= be32(v as nat));
}

impl GnuBuilder {
    /// The name-table offset used in the header of a member called `id`.
    pub closed spec fn name_offset(&self, id: Seq<u8>) -> nat {
        if id.len() > 15 {
            self.long_offsets@[views(self.long_ids@).index_of(id)] as nat
        } else {
            0
        }
    }

    /// Writes `be32(off)` over every placeholder of member `idx`.
    fn patch_member(&mut self, idx: usize, off: u32)
        requires
            old(self).wf(),
            idx < old(self).symbols@.len(),
        ensures
            final(self).buffer@.len() == old(self).buffer@.len(),
            forall|k: int|
                0 <= k < old(self).symbols@[idx as int].len() ==> #[trigger] final(self).buffer@.subrange(
                    old(self).slot(idx as int, k) as int,
                    (old(self).slot(idx as int, k) + 4) as int,
                ) == be32(off as nat),
            forall|i: int|
                0 <= i < old(self).buffer@.len() && (i < old(self).slot(idx as int, 0) || old(self).slot(idx as int, 0) + 4 * old(self).symbols@[idx as int].len() <= i)
                    ==> #[trigger] final(self).buffer@[i] == old(self).buffer@[i],
            final(self).symbols == old(self).symbols,
            final(self).first_slot == old(self).first_slot,
            final(self).identifiers == old(self).identifiers,
            final(self).long_ids == old(self).long_ids,
            final(self).long_offsets == old(self).long_offsets,
            final(self).symbol_table_relocations == old(self).symbol_table_relocations,
            final(self).symbol_index == old(self).symbol_index,
            final(self).table_start == old(self).table_start,
            final(self).prefix_len == old(self).prefix_len,
            final(self).member_offsets == old(self).member_offsets,
            final(self).member_headers == old(self).member_headers,
            final(self).deterministic == old(self).deterministic,
    {
        let ghost st = self.symbols@;
        let ghost old_buf = self.buffer@;
        let ghost fs = self.first_slot@;
        let n = self.symbol_table_relocations[idx].len();
        let mut j: usize = 0;
        while j < n
            invariant
                self.symbols@ == st,
                self.first_slot@ == fs,
                idx < st.len(),
                n == st[idx as int].len(),
                self.symbol_table_relocations@.len() == st.len(),
                self.symbol_table_relocations@[idx as int]@.len() == n,
                forall|q: int|
                    0 <= q < n ==> #[trigger] self.symbol_table_relocations@[idx as int]@[q] == slot_at(
                        fs,
                        st,
                        idx as int,
                        q,
                    ),
                fs + 4 * sym_count(st) <= old_buf.len(),
                j <= n,
                self.buffer@.len() == old_buf.len(),
                forall|q: int|
                    0 <= q < j ==> #[trigger] self.buffer@.subrange(
                        slot_at(fs, st, idx as int, q) as int,
                        (slot_at(fs, st, idx as int, q) + 4) as int,
                    ) == be32(off as nat),
                forall|i: int|
                    0 <= i < old_buf.len() && (i < slot_at(fs, st, idx as int, 0) || slot_at(
                        fs,
                        st,
                        idx as int,
                        0,
                    ) + 4 * j <= i) ==> #[trigger] self.buffer@[i] == old_buf[i],
                self.identifiers == old(self).identifiers,
                self.long_ids == old(self).long_ids,
                self.long_offsets == old(self).long_offsets,
                self.symbol_table_relocations == old(self).symbol_table_relocations,
                self.symbol_index == old(self).symbol_index,
                self.table_start == old(self).table_start,
                self.prefix_len == old(self).prefix_len,
                self.member_offsets == old(self).member_offsets,
                self.member_headers == old(self).member_headers,
                self.deterministic == old(self).deterministic,
            decreases n - j,
        {
            let p = self.symbol_table_relocations[idx][j];
            proof {
                lemma_slot_bound(fs, st, idx as int, j as int);
            }
            let ghost before = self.buffer@;
            set_be32(&mut self.buffer, p, off);
            proof {
                assert forall|q: int| 0 <= q < j + 1 implies #[trigger] self.buffer@.subrange(
                    slot_at(fs, st, idx as int, q) as int,
                    (slot_at(fs, st, idx as int, q) + 4) as int,
                ) == be32(off as nat) by {
                    if q < j {
                        lemma_slot_order(fs, st, idx as int, q, idx as int, j as int);
                        assert(self.buffer@.subrange(
                            slot_at(fs, st, idx as int, q) as int,
                            (slot_at(fs, st, idx as int, q) + 4) as int,
                        ) =~= before.subrange(
                            slot_at(fs, st, idx as int, q) as int,
                            (slot_at(fs, st, idx as int, q) + 4) as int,
                        ));
                    }
                }
            }
            j += 1;
        }
    }
}

proof fn lemma_outside_member(fs: nat, st: Seq<Seq<Seq<u8>>>, idx: int, m: int, k: int)
    requires
        0 <= idx < st.len(),
        0 <= m < st.len(),
        0 <= k < st[m].len(),
        m != idx,
    ensures
        slot_at(fs, st, m, k) + 4 <= slot_at(fs, st, idx, 0) || slot_at(fs, st, idx, 0) + 4
            * st[idx].len() <= slot_at(fs, st, m, k),
{
    if m < idx {
        lemma_sym_count_prefix(st.take(idx), m);
        assert(st.take(idx).take(m) == st.take(m));
        assert(st.take(idx)[m] == st[m]);
    } else {
        lemma_sym_count_prefix(st.take(m), idx);
        assert(st.take(m).take(idx) == st.take(idx));
        assert(st.take(m)[idx] == st[idx]);
    }
}

/// What `append` changes keeps the invariant.
proof fn lemma_append_keeps_wf(ob: GnuBuilder, nb: GnuBuilder, patched_buf: Seq<u8>, hb: Seq<u8>)
    requires
        ob.wf(),
        nb.symbols@ == ob.symbols@,
        nb.first_slot@ == ob.first_slot@,
        nb.identifiers@ == ob.identifiers@,
        nb.long_ids@ == ob.long_ids@,
        nb.long_offsets@ == ob.long_offsets@,
        nb.symbol_table_relocations@ == ob.symbol_table_relocations@,
        nb.table_start@ == ob.table_start@,
        nb.prefix_len@ == ob.prefix_len@,
        patched_buf.len() == ob.buffer@.len(),
        nb.symbol_index == if ob.symbol_index < ob.symbols@.len() {
            ob.symbol_index + 1
        } else {
            ob.symbol_index as int
        },
        nb.member_offsets@ == ob.member_offsets@.push(ob.buffer@.len()),
        nb.member_headers@ == ob.member_headers@.push(hb),
        nb.buffer@.len() >= patched_buf.len() + hb.len(),
        nb.buffer@.subrange(0, patched_buf.len() as int) == patched_buf,
        nb.buffer@.subrange(patched_buf.len() as int, (patched_buf.len() + hb.len()) as int) == hb,
        ob.symbol_index < ob.symbols@.len() ==> forall|k: int|
            0 <= k < ob.symbols@[ob.symbol_index as int].len() ==> #[trigger] patched_buf.subrange(
                ob.slot(ob.symbol_index as int, k) as int,
                (ob.slot(ob.symbol_index as int, k) + 4) as int,
            ) == be32(ob.buffer@.len()),
        forall|i: int|
            0 <= i < ob.buffer@.len() && (ob.symbol_index >= ob.symbols@.len() || i < ob.slot(
                ob.symbol_index as int,
                0,
            ) || ob.slot(ob.symbol_index as int, 0) + 4 * ob.symbols@[ob.symbol_index as int].len()
                <= i) ==> #[trigger] patched_buf[i] == ob.buffer@[i],
    ensures
        nb.wf(),
        forall|i: int| ob.prefix_len@ <= i < ob.buffer@.len() ==> #[trigger] nb.buffer@[i] == ob.buffer@[i],
        ob.symbol_index < ob.symbols@.len() ==> forall|k: int|
            0 <= k < ob.symbols@[ob.symbol_index as int].len() ==> #[trigger] nb.buffer@.subrange(
                ob.slot(ob.symbol_index as int, k) as int,
                (ob.slot(ob.symbol_index as int, k) + 4) as int,
            ) == be32(ob.buffer@.len()),
        forall|i: int|
            0 <= i < ob.buffer@.len() && (ob.symbol_index >= ob.symbols@.len() || i < ob.slot(
                ob.symbol_index as int,
                0,
            ) || ob.slot(ob.symbol_index as int, 0) + 4 * ob.symbols@[ob.symbol_index as int].len()
                <= i) ==> #[trigger] nb.buffer@[i] == ob.buffer@[i],
{
    let st = ob.symbols@;
    let fs = ob.first_slot@;
    let buf = nb.buffer@;
    let old_buf = ob.buffer@;
    let idx = ob.symbol_index as int;
    let patched = idx < st.len();
    let off = old_buf.len();
    assert forall|i: int| 0 <= i < off implies #[trigger] buf[i] == patched_buf[i] by {
        assert(buf.subrange(0, patched_buf.len() as int)[i] == patched_buf[i]);
    }
    if patched && st[idx].len() > 0 {
        lemma_slot_bound(fs, st, idx, st[idx].len() - 1);
    }
    assert forall|i: int| ob.prefix_len@ <= i < old_buf.len() implies #[trigger] buf[i] == old_buf[i] by {
        assert(buf[i] == patched_buf[i]);
    }
    if patched {
        assert forall|k: int| 0 <= k < st[idx].len() implies #[trigger] buf.subrange(
            ob.slot(idx, k) as int,
            (ob.slot(idx, k) + 4) as int,
        ) == be32(off) by {
            lemma_slot_bound(fs, st, idx, k);
            assert(patched_buf.subrange(ob.slot(idx, k) as int, (ob.slot(idx, k) + 4) as int)
                == be32(off));
            assert(buf.subrange(ob.slot(idx, k) as int, (ob.slot(idx, k) + 4) as int)
                =~= patched_buf.subrange(ob.slot(idx, k) as int, (ob.slot(idx, k) + 4) as int));
        }
    }
    assert forall|m: int, k: int|
        0 <= m < st.len() && 0 <= k < st[m].len() && m != idx implies #[trigger] buf.subrange(
        slot_at(fs, st, m, k) as int,
        (slot_at(fs, st, m, k) + 4) as int,
    ) == old_buf.subrange(slot_at(fs, st, m, k) as int, (slot_at(fs, st, m, k) + 4) as int) by {
        lemma_slot_bound(fs, st, m, k);
        if patched {
            lemma_outside_member(fs, st, idx, m, k);
        }
        assert(buf.subrange(slot_at(fs, st, m, k) as int, (slot_at(fs, st, m, k) + 4) as int)
            =~= old_buf.subrange(slot_at(fs, st, m, k) as int, (slot_at(fs, st, m, k) + 4) as int));
    }
    assert forall|m: int, k: int|
        0 <= m < nb.symbol_index && 0 <= k < st[m].len() implies #[trigger] buf.subrange(
        nb.slot(m, k) as int,
        (nb.slot(m, k) + 4) as int,
    ) == be32(nb.member_offsets@[m]) by {
        lemma_slot_bound(fs, st, m, k);
        if m != idx {
            assert(ob.slot(m, k) == nb.slot(m, k));
        } else {
            assert(patched);
            assert(ob.slot(idx, k) == nb.slot(m, k));
            assert(patched_buf.subrange(ob.slot(idx, k) as int, (ob.slot(idx, k) + 4) as int)
                == be32(off));
            assert(buf.subrange(slot_at(fs, st, m, k) as int, (slot_at(fs, st, m, k) + 4) as int)
                =~= patched_buf.subrange(
                slot_at(fs, st, m, k) as int,
                (slot_at(fs, st, m, k) + 4) as int,
            ));
            assert(nb.member_offsets@[m] == off);
        }
    }
    assert forall|m: int, k: int|
        nb.symbol_index <= m < st.len() && 0 <= k < st[m].len() implies #[trigger] buf.subrange(
        nb.slot(m, k) as int,
        (nb.slot(m, k) + 4) as int,
    ) == sentinel() by {
        assert(ob.slot(m, k) == nb.slot(m, k));
    }
    assert forall|a: int| 0 <= a < nb.member_offsets@.len() implies nb.prefix_len@
        <= #[trigger] nb.member_offsets@[a] && nb.member_offsets@[a] + nb.member_headers@[a].len()
        <= buf.len() && buf.subrange(
        nb.member_offsets@[a] as int,
        (nb.member_offsets@[a] + nb.member_headers@[a].len()) as int,
    ) == nb.member_headers@[a] by {
        if a < ob.member_offsets@.len() {
            if patched && st[idx].len() > 0 {
                lemma_slot_bound(fs, st, idx, st[idx].len() - 1);
            }
            assert(buf.subrange(
                nb.member_offsets@[a] as int,
                (nb.member_offsets@[a] + nb.member_headers@[a].len()) as int,
            ) =~= old_buf.subrange(
                nb.member_offsets@[a] as int,
                (nb.member_offsets@[a] + nb.member_headers@[a].len()) as int,
            ));
        }
    }
    let ln = views(nb.long_ids@);
    assert forall|k: int| 0 <= k < ln.len() implies nb.table_start@ + #[trigger] nb.long_offsets@[k]
        + ln[k].len() + 2 <= nb.prefix_len@ && buf.subrange(
        (nb.table_start@ + nb.long_offsets@[k]) as int,
        (nb.table_start@ + nb.long_offsets@[k] + ln[k].len() + 2) as int,
    ) == ln[k] + seq![47u8, 10u8] by {
        if patched && st[idx].len() > 0 {
            lemma_slot_bound(fs, st, idx, st[idx].len() - 1);
        }
        assert(buf.subrange(
            (nb.table_start@ + nb.long_offsets@[k]) as int,
            (nb.table_start@ + nb.long_offsets@[k] + ln[k].len() + 2) as int,
        ) =~= old_buf.subrange(
            (nb.table_start@ + nb.long_offsets@[k]) as int,
            (nb.table_start@ + nb.long_offsets@[k] + ln[k].len() + 2) as int,
        ));
    }
}

impl GnuBuilder {
    /// Appends a member. Its identifier must have been declared at
    /// construction; when symbols were listed for this position, the
    /// member's offset is written into each of their placeholders.
    #[verifier::rlimit(30)]
    pub fn append(&mut self, header: &Header, data: &[u8]) -> (r: Result<(), Error>)
        requires
            old(self).wf(),
            header_fits(*header, old(self).is_deterministic()),
        ensures
            r is Ok && (header.identifier@.len() <= 15 || old(self).name_offset(header.identifier@)
                < 1_000_000_000_000_000) ==> header_bytes(
                *header,
                old(self).is_deterministic(),
                old(self).name_offset(header.identifier@),
            ).len() == 60,
            forall|i: int|
                old(self).prefix_len() <= i < old(self).bytes().len() ==> #[trigger] final(self).bytes()[i]
                    == old(self).bytes()[i],
            final(self).wf(),
            final(self).declared() == old(self).declared(),
            final(self).symbols() == old(self).symbols(),
            final(self).is_deterministic() == old(self).is_deterministic(),
            final(self).long_names() == old(self).long_names(),
            forall|k: int| #[trigger] final(self).long_offset(k) == old(self).long_offset(k),
            final(self).table_start() == old(self).table_start(),
            final(self).prefix_len() == old(self).prefix_len(),
            forall|m: int, k: int| #[trigger] final(self).slot(m, k) == old(self).slot(m, k),
            forall|id: Seq<u8>| #[trigger] final(self).name_offset(id) == old(self).name_offset(id),
            (r is Ok) <==> (old(self).declared().contains(header.identifier@) && header.size
                == data@.len() && (old(self).index() < old(self).symbols().len() ==> old(self).bytes().len() <= u32::MAX)),
            r matches Err(e) ==> {
                ||| e == Error::UndeclaredIdentifier && !old(self).declared().contains(
                    header.identifier@,
                )
                ||| e == Error::SizeMismatch && old(self).declared().contains(header.identifier@)
                    && header.size != data@.len()
                ||| e == Error::ArchiveTooLarge && old(self).declared().contains(
                    header.identifier@,
                ) && header.size == data@.len() && old(self).index() < old(self).symbols().len()
                    && old(self).bytes().len() > u32::MAX
            },
            r is Err ==> final(self).bytes() == old(self).bytes() && final(self).index() == old(self).index() && final(self).member_offsets() == old(self).member_offsets()
                && final(self).member_headers() == old(self).member_headers(),
            r is Ok ==> {
                let off = old(self).bytes().len();
                let idx = old(self).index() as int;
                let n = old(self).symbols()[idx].len();
                let patched = idx < old(self).symbols().len();
                let hb = header_bytes(
                    *header,
                    old(self).is_deterministic(),
                    old(self).name_offset(header.identifier@),
                );
                let tail = hb + data@ + if data@.len() % 2 == 1 {
                    seq![10u8]
                } else {
                    seq![]
                };
                &&& final(self).bytes().len() == off + tail.len()
                &&& final(self).bytes().subrange(off as int, final(self).bytes().len() as int)
                    == tail
                &&& patched ==> forall|k: int|
                    0 <= k < n ==> #[trigger] final(self).bytes().subrange(
                        old(self).slot(idx, k) as int,
                        (old(self).slot(idx, k) + 4) as int,
                    ) == be32(off as nat)
                &&& forall|i: int|
                    0 <= i < off && (!patched || i < old(self).slot(idx, 0) || old(self).slot(
                        idx,
                        0,
                    ) + 4 * n <= i) ==> #[trigger] final(self).bytes()[i] == old(self).bytes()[i]
                &&& final(self).index() == if patched {
                    idx + 1
                } else {
                    idx
                }
                &&& final(self).member_offsets() == old(self).member_offsets().push(off)
                &&& final(self).member_headers() == old(self).member_headers().push(hb)
            },
    {
        let ghost st = self.symbols@;
        let ghost fs = self.first_slot@;
        let ghost old_self = *self;
        let id = header.identifier();
        match find_id(&self.identifiers, id) {
            None => {
                return Err(Error::UndeclaredIdentifier);
            },
            Some(k) => {
                assert(views(self.identifiers@)[k as int] == id@);
            },
        }
        assert(views(self.identifiers@).contains(id@));
        if header.size() != data.len() as u64 {
            return Err(Error::SizeMismatch);
        }
        let off = self.buffer.len();
        let idx = self.symbol_index;
        if idx < self.symbol_table_relocations.len() {
            if off > 0xffff_ffffusize {
                return Err(Error::ArchiveTooLarge);
            }
            self.patch_member(idx, off as u32);
            self.symbol_index = idx + 1;
        }
        let ghost patched_buf = self.buffer@;
        proof {
            lemma_long_list(views(self.identifiers@));
        }
        let long_offset: usize = if id.len() > 15 {
            match find_id(&self.long_ids, id) {
                Some(k) => {
                    proof {
                        let ln = views(self.long_ids@);
                        assert(ln[k as int] == id@);
                        assert(ln.contains(id@));
                        let i = ln.index_of(id@);
                        assert(ln[i] == id@);
                        assert(i == k);
                    }
                    self.long_offsets[k]
                },
                None => {
                    assert(long_list(views(self.identifiers@)).contains(id@));
                    0
                },
            }
        } else {
            0
        };
        assert(long_offset == old_self.name_offset(header.identifier@));
        header.write_gnu(self.deterministic, &mut self.buffer, long_offset);
        extend(&mut self.buffer, data);
        if data.len() % 2 == 1 {
            self.buffer.push(10u8);
        }
        let ghost hb = header_bytes(*header, self.deterministic, long_offset as nat);
        proof {
            self.member_offsets@ = self.member_offsets@.push(off as nat);
            self.member_headers@ = self.member_headers@.push(hb);
        }
        let ghost tail = hb + data@ + if data@.len() % 2 == 1 {
            seq![10u8]
        } else {
            seq![]
        };
        assert(self.buffer@ =~= patched_buf + tail);
        assert(self.buffer@.subrange(off as int, self.buffer@.len() as int) =~= tail);
        assert(self.buffer@.subrange(0, patched_buf.len() as int) =~= patched_buf);
        assert(self.buffer@.subrange(patched_buf.len() as int, (patched_buf.len() + hb.len()) as int) =~= hb);
        proof {
            lemma_append_keeps_wf(old_self, *self, patched_buf, hb);
            if header.identifier@.len() <= 15 || long_offset < 1_000_000_000_000_000 {
                lemma_header_len(*header, self.deterministic, long_offset as nat);
            }
        }
        Ok(())
    }
}

impl GnuBuilder {
    /// The archive written so far.
    pub fn into_bytes(self) -> (r: Vec<u8>)
        ensures
            r@ == self.bytes(),
    {
        self.buffer
    }
}

/// Each placeholder of the symbol index that belongs to an appended member
/// holds the big-endian offset of that member, and the member's header
/// stands at that offset.
pub proof fn lemma_index_points_at_members(b: &GnuBuilder, m: int, k: int)
    requires
        b.wf(),
        0 <= m < b.index(),
        0 <= k < b.symbols()[m].len(),
    ensures
        b.slot(m, k) + 4 <= b.member_offsets()[m],
        b.bytes().subrange(b.slot(m, k) as int, (b.slot(m, k) + 4) as int) == be32(
            b.member_offsets()[m],
        ),
        b.member_offsets()[m] + b.member_headers()[m].len() <= b.bytes().len(),
        b.bytes().subrange(
            b.member_offsets()[m] as int,
            (b.member_offsets()[m] + b.member_headers()[m].len()) as int,
        ) == b.member_headers()[m],
{
    lemma_slot_bound(b.first_slot@, b.symbols@, m, k);
}

/// A member called by a declared identifier longer than 15 bytes is named in
/// its header by an offset into the name table, where that identifier
/// stands, followed by `/\n`.
pub proof fn lemma_long_name_resolves(b: &GnuBuilder, id: Seq<u8>)
    requires
        b.wf(),
        b.declared().contains(id),
        id.len() > 15,
    ensures
        b.table_start() + b.name_offset(id) + id.len() + 2 <= b.prefix_len(),
        b.bytes().subrange(
            (b.table_start() + b.name_offset(id)) as int,
            (b.table_start() + b.name_offset(id) + id.len() + 2) as int,
        ) == id + seq![47u8, 10u8],
{
    lemma_long_list(views(b.identifiers@));
    let ln = views(b.long_ids@);
    assert(ln.contains(id));
    let k = ln.index_of(id);
    assert(ln[k] == id);
    assert(b.long_offsets@[k] == b.long_offsets@[k]);
}

/// `b` to the power `w`.
pub open spec fn power(b: nat, w: nat) -> nat
    decreases w,
{
    if w == 0 {
        1
    } else {
        b * power(b, (w - 1) as nat)
    }
}

/// Whether every field of a header fits its width (a deterministic header
/// writes only its size).
pub open spec fn header_fits(h: Header, deterministic: bool) -> bool {
    &&& h.size < 10_000_000_000
    &&& !deterministic ==> h.mtime < 1_000_000_000_000 && h.uid < 1_000_000 && h.gid < 1_000_000
        && h.mode < 0o1_0000_0000
}

proof fn lemma_radix_len(n: nat, b: nat, w: nat)
    requires
        b == 8 || b == 10,
        1 <= w,
        n < power(b, w),
    ensures
        radix_digits(n, b).len() <= w,
    decreases w,
{
    if n >= b {
        if w == 1 {
            assert(power(b, 1) == b * power(b, 0));
        } else {
            let p = power(b, (w - 1) as nat);
            assert(n / b < p) by (nonlinear_arith)
                requires
                    n < b * p,
                    b > 0,
            ;
            if b == 8 {
                lemma_radix_len(n / 8, b, (w - 1) as nat);
            } else {
                lemma_radix_len(n / 10, b, (w - 1) as nat);
            }
        }
    }
}

proof fn lemma_padded_len(s: Seq<u8>, w: nat)
    requires
        s.len() <= w,
    ensures
        padded(s, w).len() == w,
{
}

/// A header whose fields fit, and whose long-name offset has at most 15
/// digits, is 60 bytes long.
pub proof fn lemma_header_len(h: Header, deterministic: bool, long_offset: nat)
    requires
        header_fits(h, deterministic),
        h.identifier@.len() <= 15 || long_offset < 1_000_000_000_000_000,
    ensures
        header_bytes(h, deterministic, long_offset).len() == 60,
{
    reveal_with_fuel(power, 16);
    assert(power(10, 10) == 10_000_000_000);
    assert(power(10, 12) == 1_000_000_000_000);
    assert(power(10, 6) == 1_000_000);
    assert(power(10, 15) == 1_000_000_000_000_000);
    assert(power(8, 8) == 0o1_0000_0000);
    assert(power(10, 1) == 10);
    assert(power(8, 3) == 512);
    lemma_radix_len(h.size as nat, 10, 10);
    lemma_radix_len(0, 10, 1);
    lemma_radix_len(0o644, 8, 3);
    if !deterministic {
        lemma_radix_len(h.mtime as nat, 10, 12);
        lemma_radix_len(h.uid as nat, 10, 6);
        lemma_radix_len(h.gid as nat, 10, 6);
        lemma_radix_len(h.mode as nat, 8, 8);
    }
    if h.identifier@.len() > 15 {
        lemma_radix_len(long_offset, 10, 15);
    }
}

/// The name-table offset of a long identifier among `ids`.
pub open spec fn name_offset_in(ids: Seq<Seq<u8>>, id: Seq<u8>) -> nat {
    if id.len() > 15 {
        name_entries(long_list(ids).take(long_list(ids).index_of(id))).len()
    } else {
        0
    }
}

/// The offset a builder uses in the header of a declared identifier is the
/// start of that identifier's entry in the name table of the declared
/// identifiers.
pub proof fn lemma_name_offset(b: &GnuBuilder, id: Seq<u8>)
    requires
        b.wf(),
        b.declared().contains(id),
    ensures
        b.name_offset(id) == name_offset_in(b.declared(), id),
{
    if id.len() > 15 {
        lemma_long_list(views(b.identifiers@));
        let ln = views(b.long_ids@);
        assert(ln.contains(id));
        let k = ln.index_of(id);
        assert(b.long_offsets@[k] == name_entries(ln.take(k)).len());
    }
}

/// Before the first member, every byte outside the placeholders is the
/// byte of the archive's start.
pub proof fn lemma_prefix_bytes(b: &GnuBuilder, i: int)
    requires
        b.wf(),
        0 <= i < b.prefix_len(),
        outside_slots(b.symbols(), i),
    ensures
        b.prefix_len() == archive_start(b.declared(), b.symbols()).len(),
        b.bytes()[i] == archive_start(b.declared(), b.symbols())[i],
{
}

/// The length of everything before the first member.
pub proof fn lemma_prefix_len(b: &GnuBuilder)
    requires
        b.wf(),
    ensures
        b.prefix_len() == archive_start(b.declared(), b.symbols()).len(),
        b.prefix_len() <= b.bytes().len(),
{
}

/// The placeholders stand one after another from `symtab_first_slot`.
pub proof fn lemma_slot_position(b: &GnuBuilder, m: int, k: int)
    requires
        b.wf(),
        0 <= m < b.symbols().len(),
    ensures
        b.slot(m, k) == slot_at(symtab_first_slot(b.symbols()), b.symbols(), m, k),
{
}

} // verus!

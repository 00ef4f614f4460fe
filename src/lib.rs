use vstd::prelude::*;

use vstd::utf8::encode_utf8;

use crate::ar::{
    archive_start, be32, even_padded, global_header, header_end, name_field, name_table_member,
    names_blob, padded, radix_digits, slot_at, sym_count, symtab_first_slot, symtab_header,
    symtab_payload, views, GnuBuilder, Header,
};
use crate::def::{DefModel, ExportModel, ModuleDef, ShortExport};

pub mod ar;
pub mod def;
mod coff;
mod error;
pub mod gnu;
pub mod msvc;
mod text;

pub use crate::error::Error;

verus! {

/// Machine types
#[derive(Debug, Clone, Copy, PartialEq, Eq, Structural)]
pub enum MachineType {
    I386,
    ARMNT,
    AMD64,
    ARM64,
}

/// One member of an archive: its identifier, its data, and the symbols
/// that the archive's index points at it.
#[derive(Debug, Clone)]
pub struct ArchiveMember {
    pub name: Vec<u8>,
    pub data: Vec<u8>,
    pub symbols: Vec<Vec<u8>>,
}

/// What an archive member states.
pub type MemberModel = (Seq<u8>, Seq<u8>, Seq<Seq<u8>>);

impl View for ArchiveMember {
    type V = MemberModel;

    open spec fn view(&self) -> MemberModel {
        (self.name@, self.data@, crate::ar::views(self.symbols@))
    }
}

/// The models of a sequence of members.
pub open spec fn member_models(v: Seq<ArchiveMember>) -> Seq<MemberModel> {
    Seq::new(v.len(), |i: int| v[i]@)
}

/// The PE machine code of each target.
pub open spec fn machine_code(m: MachineType) -> u16 {
    match m {
        MachineType::I386 => 0x014c,
        MachineType::ARMNT => 0x01c4,
        MachineType::AMD64 => 0x8664,
        MachineType::ARM64 => 0xaa64,
    }
}

/// Whether the target has 32-bit addresses.
pub open spec fn is_32bit(m: MachineType) -> bool {
    m == MachineType::I386 || m == MachineType::ARMNT
}

/// The image-relative (RVA) relocation type of each target.
pub open spec fn img_rel_type(m: MachineType) -> u16 {
    match m {
        MachineType::I386 => 0x0007,
        MachineType::ARMNT => 0x0002,
        MachineType::AMD64 => 0x0003,
        MachineType::ARM64 => 0x0002,
    }
}

/// The 32-bit PC-relative relocation type of each target.
pub open spec fn rel32_type(m: MachineType) -> u16 {
    match m {
        MachineType::I386 => 0x0014,
        MachineType::ARMNT => 0x000a,
        MachineType::AMD64 => 0x0004,
        MachineType::ARM64 => 0x0011,
    }
}

impl MachineType {
    /// The PE machine code.
    pub fn machine_value(self) -> (r: u16)
        ensures
            r == machine_code(self),
    {
        match self {
            MachineType::I386 => 0x014c,
            MachineType::ARMNT => 0x01c4,
            MachineType::AMD64 => 0x8664,
            MachineType::ARM64 => 0xaa64,
        }
    }

    /// Whether addresses are 32 bits wide.
    pub fn is_32bit(self) -> (r: bool)
        ensures
            r == is_32bit(self),
    {
        match self {
            MachineType::I386 | MachineType::ARMNT => true,
            _ => false,
        }
    }

    /// The image-relative relocation type.
    pub fn img_rel_relocation(self) -> (r: u16)
        ensures
            r == img_rel_type(self),
    {
        match self {
            MachineType::AMD64 => 0x0003,
            MachineType::ARMNT => 0x0002,
            MachineType::ARM64 => 0x0002,
            MachineType::I386 => 0x0007,
        }
    }

    /// The 32-bit PC-relative relocation type.
    pub fn rel32_relocation(self) -> (r: u16)
        ensures
            r == rel32_type(self),
    {
        match self {
            MachineType::I386 => 0x0014,
            MachineType::ARMNT => 0x000a,
            MachineType::AMD64 => 0x0004,
            MachineType::ARM64 => 0x0011,
        }
    }
}

/// The fields of a deterministic member header after its identifier.
pub open spec fn deterministic_tail(size: nat) -> Seq<u8> {
    padded(radix_digits(0, 10), 12) + padded(radix_digits(0, 10), 6) + padded(radix_digits(0, 10), 6)
        + padded(radix_digits(0o644, 8), 8) + padded(radix_digits(size, 10), 10) + header_end()
}

/// The identifiers of members.
pub open spec fn member_names(ms: Seq<MemberModel>) -> Seq<Seq<u8>> {
    Seq::new(ms.len(), |i: int| ms[i].0)
}

/// The symbol lists of members.
pub open spec fn member_symbols(ms: Seq<MemberModel>) -> Seq<Seq<Seq<u8>>> {
    Seq::new(ms.len(), |i: int| ms[i].2)
}

/// Whether `g` is a finished deterministic archive of the members `ms`:
/// every member appended in order, each symbol of the index pointing at its
/// member, each header naming the member and its size.
pub open spec fn built_from(g: GnuBuilder, ms: Seq<MemberModel>) -> bool {
    &&& g.wf()
    &&& g.is_deterministic()
    &&& g.declared() == member_names(ms)
    &&& g.symbols() == member_symbols(ms)
    &&& g.index() == ms.len()
    &&& g.member_offsets().len() == ms.len()
    &&& g.member_headers().len() == ms.len()
    &&& forall|i: int|
        0 <= i < ms.len() ==> #[trigger] g.member_headers()[i] == member_header(ms, i)
    &&& forall|i: int|
        0 <= i < ms.len() ==> #[trigger] g.member_offsets()[i] == member_offset(ms, i as nat)
}

/// The header of member `i`.
#[verifier::opaque]
pub open spec fn member_header(ms: Seq<MemberModel>, i: int) -> Seq<u8> {
    name_field(ms[i].0, crate::ar::name_offset_in(member_names(ms), ms[i].0)) + deterministic_tail(
        ms[i].1.len(),
    )
}

/// Member `i` as it stands in the archive: header, data, and a newline
/// after odd-sized data.
pub open spec fn member_chunk(ms: Seq<MemberModel>, i: int) -> Seq<u8> {
    member_header(ms, i) + ms[i].1 + if ms[i].1.len() % 2 == 1 {
        seq![10u8]
    } else {
        seq![]
    }
}

/// Where member `i` starts: after the archive's start and the members
/// before it.
pub open spec fn member_offset(ms: Seq<MemberModel>, i: nat) -> nat
    decreases i,
{
    if i == 0 {
        crate::ar::archive_start(member_names(ms), member_symbols(ms)).len()
    } else {
        member_offset(ms, (i - 1) as nat) + member_chunk(ms, i - 1).len()
    }
}

/// Whether every member's offset fits the 32-bit index and its size the
/// 10-digit size field.
pub open spec fn archive_fits(ms: Seq<MemberModel>) -> bool {
    forall|i: int|
        0 <= i < ms.len() ==> #[trigger] member_offset(ms, i as nat) <= u32::MAX && ms[i].1.len()
            < 10_000_000_000
}

/// `n` copies of the 4 bytes `x`.
pub open spec fn rep4(x: Seq<u8>, n: nat) -> Seq<u8> {
    Seq::new(4 * n, |t: int| x[t % 4])
}

/// The filled symbol-index offsets of the first `n` members: for each
/// member, its offset once per symbol.
pub open spec fn offsets_blob(ms: Seq<MemberModel>, n: nat) -> Seq<u8>
    decreases n,
{
    if n == 0 {
        seq![]
    } else {
        offsets_blob(ms, (n - 1) as nat) + rep4(be32(member_offset(ms, (n - 1) as nat)), ms[n - 1].2.len())
    }
}

/// What the archive of `ms` holds before its first member: the signature,
/// the symbol index with every offset filled in, and the name table.
pub open spec fn filled_prefix(ms: Seq<MemberModel>) -> Seq<u8> {
    let st = member_symbols(ms);
    let index = if st.len() == 0 {
        seq![]
    } else {
        symtab_header(symtab_payload(st).len()) + even_padded(
            be32(sym_count(st)) + offsets_blob(ms, ms.len()) + names_blob(st),
        )
    };
    global_header() + index + name_table_member(member_names(ms))
}

proof fn lemma_rep4(s: Seq<u8>, x: Seq<u8>, n: nat)
    requires
        s.len() == 4 * n,
        x.len() == 4,
        forall|k: int| 0 <= k < n ==> #[trigger] s.subrange(4 * k, 4 * k + 4) == x,
    ensures
        s == rep4(x, n),
{
    assert forall|t: int| 0 <= t < s.len() implies s[t] == #[trigger] rep4(x, n)[t] by {
        let k = t / 4;
        assert(0 <= k < n);
        assert(s.subrange(4 * k, 4 * k + 4)[t - 4 * k] == s[t]);
    }
    assert(s =~= rep4(x, n));
}

proof fn lemma_blob_len(ms: Seq<MemberModel>, n: nat)
    requires
        n <= ms.len(),
    ensures
        offsets_blob(ms, n).len() == 4 * sym_count(member_symbols(ms).take(n as int)),
    decreases n,
{
    if n > 0 {
        lemma_blob_len(ms, (n - 1) as nat);
        let st = member_symbols(ms);
        assert(st.take(n as int).drop_last() == st.take(n - 1));
    }
}

/// In a finished archive, the placeholders of the first `n` members hold
/// their offsets.
proof fn lemma_region(g: GnuBuilder, ms: Seq<MemberModel>, n: nat)
    requires
        built_from(g, ms),
        ms.len() > 0,
        n <= ms.len(),
    ensures
        symtab_first_slot(member_symbols(ms)) + 4 * sym_count(member_symbols(ms).take(n as int))
            <= g.bytes().len(),
        g.bytes().subrange(
            symtab_first_slot(member_symbols(ms)) as int,
            (symtab_first_slot(member_symbols(ms)) + 4 * sym_count(member_symbols(ms).take(n as int))) as int,
        ) == offsets_blob(ms, n),
    decreases n,
{
    let st = member_symbols(ms);
    let fs = symtab_first_slot(st);
    crate::ar::lemma_prefix_len(&g);
    crate::ar::lemma_sentinels_len(sym_count(st));
    if n == 0 {
        assert(st.take(0) =~= Seq::<Seq<Seq<u8>>>::empty());
        assert(g.bytes().subrange(fs as int, fs as int) =~= Seq::<u8>::empty());
        assert(archive_start(member_names(ms), st).len() >= fs);
    } else {
        let m = (n - 1) as int;
        lemma_region(g, ms, (n - 1) as nat);
        assert(st.take(n as int).drop_last() == st.take(m));
        crate::ar::lemma_sym_count_prefix(st, m);
        let lo = fs + 4 * sym_count(st.take(m));
        let len = st[m].len();
        let hi = lo + 4 * len;
        assert(archive_start(member_names(ms), st).len() >= fs + 4 * sym_count(st));
        let part = g.bytes().subrange(lo as int, hi as int);
        assert forall|k: int| 0 <= k < len implies #[trigger] part.subrange(4 * k, 4 * k + 4)
            == be32(member_offset(ms, m as nat)) by {
            crate::ar::lemma_slot_position(&g, m, k);
            crate::ar::lemma_index_points_at_members(&g, m, k);
            assert(part.subrange(4 * k, 4 * k + 4) =~= g.bytes().subrange(
                g.slot(m, k) as int,
                (g.slot(m, k) + 4) as int,
            ));
        }
        lemma_rep4(part, be32(member_offset(ms, m as nat)), len);
        assert(ms[m].2.len() == len);
        assert(g.bytes().subrange(fs as int, hi as int) =~= g.bytes().subrange(fs as int, lo as int)
            + part);
    }
}

/// A finished archive of `ms` holds `filled_prefix(ms)` before its first
/// member.
#[verifier::rlimit(80)]
proof fn lemma_filled_prefix(g: GnuBuilder, ms: Seq<MemberModel>)
    requires
        built_from(g, ms),
    ensures
        member_offset(ms, 0) <= g.bytes().len(),
        g.bytes().subrange(0, member_offset(ms, 0) as int) == filled_prefix(ms),
{
    let st = member_symbols(ms);
    let names = member_names(ms);
    let a = archive_start(names, st);
    let f = filled_prefix(ms);
    crate::ar::lemma_prefix_len(&g);
    if st.len() == 0 {
        assert(a =~= f);
        assert forall|i: int| 0 <= i < a.len() implies g.bytes()[i] == #[trigger] f[i] by {
            crate::ar::lemma_prefix_bytes(&g, i);
        }
        assert(g.bytes().subrange(0, a.len() as int) =~= f);
    } else {
        let c = sym_count(st);
        let fs = symtab_first_slot(st);
        crate::ar::lemma_sentinels_len(c);
        lemma_blob_len(ms, ms.len());
        assert(st.take(ms.len() as int) == st);
        let blob = offsets_blob(ms, ms.len());
        let pre = global_header() + symtab_header(symtab_payload(st).len()) + be32(c);
        let body = be32(c) + crate::ar::sentinels(c) + names_blob(st);
        let fbody = be32(c) + blob + names_blob(st);
        let pad = if body.len() % 2 == 1 {
            crate::ar::table_padding()
        } else {
            seq![]
        };
        let rest = names_blob(st) + pad + name_table_member(names);
        assert(a =~= pre + crate::ar::sentinels(c) + rest);
        assert(f =~= pre + blob + rest);
        assert(pre.len() == fs);
        lemma_region(g, ms, ms.len());
        assert forall|i: int| 0 <= i < a.len() implies g.bytes()[i] == #[trigger] f[i] by {
            if crate::ar::outside_slots(st, i) {
                crate::ar::lemma_prefix_bytes(&g, i);
            } else {
                assert(g.bytes().subrange(fs as int, (fs + 4 * c) as int)[i - fs] == g.bytes()[i]);
            }
        }
        assert(g.bytes().subrange(0, a.len() as int) =~= f);
    }
}

/// Whether `b` is the archive of the members `ms`: a finished builder holds
/// it (so the index points at every member), it ends after the last member,
/// and each member's header and data stand at its offset.
pub open spec fn archive_of(ms: Seq<MemberModel>, b: Seq<u8>) -> bool {
    &&& exists|g: GnuBuilder| #[trigger] built_from(g, ms) && g.bytes() == b
    &&& member_offset(ms, 0) <= b.len()
    &&& b.subrange(0, member_offset(ms, 0) as int) == filled_prefix(ms)
    &&& b.len() == member_offset(ms, ms.len())
    &&& forall|i: int|
        0 <= i < ms.len() ==> b.subrange(
            member_offset(ms, i as nat) as int,
            (member_offset(ms, i as nat) + member_chunk(ms, i).len()) as int,
        ) == #[trigger] member_chunk(ms, i)
}

/// The members' chunks, in order, up to member `n`.
pub open spec fn chunks(ms: Seq<MemberModel>, n: nat) -> Seq<u8>
    decreases n,
{
    if n == 0 {
        seq![]
    } else {
        chunks(ms, (n - 1) as nat) + member_chunk(ms, n - 1)
    }
}

/// The whole archive of `ms`.
pub open spec fn archive_bytes(ms: Seq<MemberModel>) -> Seq<u8> {
    filled_prefix(ms) + chunks(ms, ms.len())
}

#[verifier::rlimit(80)]
proof fn lemma_archive_prefix(ms: Seq<MemberModel>, b: Seq<u8>, p: Seq<u8>, n: nat)
    requires
        p.len() == member_offset(ms, 0),
        p.len() <= b.len(),
        b.subrange(0, p.len() as int) == p,
        b.len() == member_offset(ms, ms.len()),
        forall|i: int|
            0 <= i < ms.len() ==> b.subrange(
                member_offset(ms, i as nat) as int,
                (member_offset(ms, i as nat) + member_chunk(ms, i).len()) as int,
            ) == #[trigger] member_chunk(ms, i),
        n <= ms.len(),
    ensures
        member_offset(ms, n) <= b.len(),
        b.subrange(0, member_offset(ms, n) as int) == p + chunks(ms, n),
    decreases n,
{
    if n == 0 {
        assert(p + chunks(ms, 0) =~= p);
    } else {
        let m = (n - 1) as int;
        lemma_archive_prefix(ms, b, p, (n - 1) as nat);
        lemma_chunk_before(ms, m, ms.len() as int);
        let lo = member_offset(ms, m as nat);
        let hi = lo + member_chunk(ms, m).len();
        assert(member_chunk(ms, m) == b.subrange(lo as int, hi as int));
        assert(member_offset(ms, n) == hi);
        assert(b.subrange(0, hi as int) =~= b.subrange(0, lo as int) + b.subrange(lo as int, hi as int));
    }
}

/// The archive of a member list is unique: its bytes are
/// `archive_bytes(ms)`, so writing the same members twice gives the same
/// bytes.
pub proof fn lemma_archive_unique(ms: Seq<MemberModel>, b: Seq<u8>)
    requires
        archive_of(ms, b),
    ensures
        b == archive_bytes(ms),
{
    if ms.len() > 0 {
        lemma_archive_prefix(ms, b, filled_prefix(ms), ms.len());
        assert(b.subrange(0, b.len() as int) =~= b);
    } else {
        assert(b.subrange(0, b.len() as int) =~= b);
        assert(chunks(ms, 0) =~= Seq::<u8>::empty());
        assert(archive_bytes(ms) =~= filled_prefix(ms));
    }
}

/// Writing the same import library twice gives the same result.
pub proof fn lemma_write_deterministic(d: DefModel, m: MachineType, flavor: Flavor, b1: Seq<u8>, b2: Seq<u8>)
    requires
        archive_of(library_members(d, m, flavor), b1),
        archive_of(library_members(d, m, flavor), b2),
    ensures
        b1 == b2,
{
    lemma_archive_unique(library_members(d, m, flavor), b1);
    lemma_archive_unique(library_members(d, m, flavor), b2);
}

proof fn lemma_offsets_grow(ms: Seq<MemberModel>, i: nat)
    ensures
        member_offset(ms, 0) <= member_offset(ms, i),
    decreases i,
{
    if i > 0 {
        lemma_offsets_grow(ms, (i - 1) as nat);
    }
}

/// A copy of a byte vector.
fn copy_bytes(v: &Vec<u8>) -> (r: Vec<u8>)
    ensures
        r@ == v@,
{
    let mut r: Vec<u8> = Vec::new();
    crate::coff::push_bytes(&mut r, v.as_slice());
    r
}

/// A copy of a vector of byte vectors.
fn copy_names(v: &Vec<Vec<u8>>) -> (r: Vec<Vec<u8>>)
    ensures
        views(r@) == views(v@),
{
    let mut r: Vec<Vec<u8>> = Vec::new();
    let mut i: usize = 0;
    while i < v.len()
        invariant
            i <= v@.len(),
            views(r@) == views(v@).take(i as int),
            r@.len() == i,
        decreases v@.len() - i,
    {
        let ghost before = r@;
        let c = copy_bytes(&v[i]);
        r.push(c);
        assert(r@ == before.push(c));
        assert forall|j: int| 0 <= j < i + 1 implies #[trigger] views(r@)[j] == views(v@).take(i + 1)[j] by {
            assert(views(r@)[j] == r@[j]@);
            assert(views(v@).take(i + 1)[j] == v@[j]@);
            if j < i {
                assert(r@[j] == before[j]);
                assert(views(before)[j] == views(v@).take(i as int)[j]);
                assert(views(before)[j] == before[j]@);
            } else {
                assert(r@[j] == c);
            }
        }
        i += 1;
        assert(views(r@) =~= views(v@).take(i as int));
    }
    assert(views(v@).take(i as int) == views(v@));
    r
}

/// The header that appending member `k` writes is `member_header(ms, k)`.
proof fn lemma_header_step(ms: Seq<MemberModel>, k: int, header: Header, offset: nat)
    requires
        0 <= k < ms.len(),
        header.identifier@ == ms[k].0,
        header.size == ms[k].1.len(),
        offset == crate::ar::name_offset_in(member_names(ms), ms[k].0),
    ensures
        crate::ar::header_bytes(header, true, offset) == member_header(ms, k),
{
    reveal(member_header);
    assert(crate::ar::header_tail(header, true) =~= deterministic_tail(ms[k].1.len()));
}

/// After member `k` is appended, the archive ends after it and its header
/// and data stand at its offset, with the earlier members untouched.
proof fn lemma_append_step(before: GnuBuilder, after: GnuBuilder, ms: Seq<MemberModel>, k: int, hb: Seq<u8>)
    requires
        0 <= k < ms.len(),
        hb == member_header(ms, k),
        before.prefix_len() == member_offset(ms, 0),
        before.bytes().len() == member_offset(ms, k as nat),
        forall|j: int|
            0 <= j < k ==> before.bytes().subrange(
                member_offset(ms, j as nat) as int,
                (member_offset(ms, j as nat) + member_chunk(ms, j).len()) as int,
            ) == #[trigger] member_chunk(ms, j),
        ({
            let tail = hb + ms[k].1 + if ms[k].1.len() % 2 == 1 {
                seq![10u8]
            } else {
                seq![]
            };
            &&& after.bytes().len() == before.bytes().len() + tail.len()
            &&& after.bytes().subrange(before.bytes().len() as int, after.bytes().len() as int) == tail
        }),
        forall|i: int|
            before.prefix_len() <= i < before.bytes().len() ==> #[trigger] after.bytes()[i]
                == before.bytes()[i],
    ensures
        after.bytes().len() == member_offset(ms, (k + 1) as nat),
        forall|j: int|
            0 <= j < k + 1 ==> after.bytes().subrange(
                member_offset(ms, j as nat) as int,
                (member_offset(ms, j as nat) + member_chunk(ms, j).len()) as int,
            ) == #[trigger] member_chunk(ms, j),
{
    assert forall|j: int|
        0 <= j < k + 1 implies after.bytes().subrange(
        member_offset(ms, j as nat) as int,
        (member_offset(ms, j as nat) + member_chunk(ms, j).len()) as int,
    ) == #[trigger] member_chunk(ms, j) by {
        if j < k {
            lemma_offsets_grow(ms, j as nat);
            lemma_chunk_before(ms, j, k);
            assert(after.bytes().subrange(
                member_offset(ms, j as nat) as int,
                (member_offset(ms, j as nat) + member_chunk(ms, j).len()) as int,
            ) =~= before.bytes().subrange(
                member_offset(ms, j as nat) as int,
                (member_offset(ms, j as nat) + member_chunk(ms, j).len()) as int,
            ));
        }
    }
}

proof fn lemma_chunk_before(ms: Seq<MemberModel>, j: int, k: int)
    requires
        0 <= j < k,
    ensures
        member_offset(ms, j as nat) + member_chunk(ms, j).len() <= member_offset(ms, k as nat),
    decreases k - j,
{
    if j < k - 1 {
        lemma_chunk_before(ms, j, k - 1);
    }
}

/// What holds of a builder after the first `k` members are appended.
pub open spec fn archive_progress(b: GnuBuilder, ms: Seq<MemberModel>, k: int) -> bool {
    &&& crate::ar::sym_count(member_symbols(ms)) <= u32::MAX
    &&& b.wf()
    &&& b.is_deterministic()
    &&& b.declared() == member_names(ms)
    &&& b.symbols() == member_symbols(ms)
    &&& b.index() == k
    &&& b.member_offsets().len() == k
    &&& b.member_headers().len() == k
    &&& b.prefix_len() == member_offset(ms, 0)
    &&& b.bytes().len() == member_offset(ms, k as nat)
    &&& forall|j: int| 0 <= j < k ==> #[trigger] b.member_headers()[j] == member_header(ms, j)
    &&& forall|j: int| 0 <= j < k ==> #[trigger] b.member_offsets()[j] == member_offset(ms, j as nat)
    &&& forall|j: int|
        0 <= j < k ==> #[trigger] member_offset(ms, j as nat) <= u32::MAX && ms[j].1.len()
            < 10_000_000_000
    &&& forall|j: int|
        0 <= j < k ==> b.bytes().subrange(
            member_offset(ms, j as nat) as int,
            (member_offset(ms, j as nat) + member_chunk(ms, j).len()) as int,
        ) == #[trigger] member_chunk(ms, j)
}

/// Appends member `k`.
fn append_member(b: &mut GnuBuilder, members: &Vec<ArchiveMember>, k: usize, Ghost(ms): Ghost<Seq<MemberModel>>) -> (r: Result<(), Error>)
    requires
        k < members@.len(),
        ms == member_models(members@),
        archive_progress(*old(b), ms, k as int),
    ensures
        r is Ok ==> archive_progress(*final(b), ms, k + 1),
        r matches Err(e) ==> e == Error::ArchiveTooLarge && !archive_fits(ms),
{
    let m = &members[k];
    assert(ms[k as int].0 == m.name@ && ms[k as int].1 == m.data@);
    if m.data.len() as u64 >= 10_000_000_000 {
        assert(!archive_fits(ms)) by {
            assert(ms[k as int].1.len() >= 10_000_000_000);
            assert(member_offset(ms, k as nat) == member_offset(ms, k as nat));
        }
        return Err(Error::ArchiveTooLarge);
    }
    let header = Header {
        identifier: copy_bytes(&m.name),
        mtime: 0,
        uid: 0,
        gid: 0,
        mode: 0o644,
        size: m.data.len() as u64,
    };
    assert(member_names(ms)[k as int] == m.name@);
    assert(b.declared().contains(m.name@));
    let ghost before = *b;
    proof {
        crate::ar::lemma_name_offset(b, m.name@);
        assert(b.symbols().len() == ms.len());
    }
    match b.append(&header, m.data.as_slice()) {
        Ok(()) => {},
        Err(e) => {
            assert(before.bytes().len() > u32::MAX);
            assert(!archive_fits(ms)) by {
                assert(member_offset(ms, k as nat) > u32::MAX);
            }
            return Err(e);
        },
    }
    proof {
        lemma_header_step(ms, k as int, header, before.name_offset(header.identifier@));
        lemma_append_step(before, *b, ms, k as int, member_header(ms, k as int));
        assert forall|j: int| 0 <= j < k + 1 implies #[trigger] b.member_headers()[j] == member_header(ms, j) by {
            if j < k {
                assert(b.member_headers()[j] == before.member_headers()[j]);
            }
        }
        assert forall|j: int| 0 <= j < k + 1 implies #[trigger] b.member_offsets()[j] == member_offset(ms, j as nat) by {
            if j < k {
                assert(b.member_offsets()[j] == before.member_offsets()[j]);
            }
        }
        assert forall|j: int| 0 <= j < k + 1 implies #[trigger] member_offset(ms, j as nat) <= u32::MAX
            && ms[j].1.len() < 10_000_000_000 by {
            if j == k {
                assert(before.bytes().len() <= u32::MAX);
            }
        }
    }
    Ok(())
}

/// Writes `members` as a deterministic GNU archive with a symbol index.
pub fn build_archive(members: &Vec<ArchiveMember>) -> (r: Result<Vec<u8>, Error>)
    ensures
        ({
            let ms = member_models(members@);
            if crate::ar::sym_count(member_symbols(ms)) > u32::MAX {
                r == Err::<Vec<u8>, Error>(Error::TooManySymbols)
            } else if !archive_fits(ms) {
                r == Err::<Vec<u8>, Error>(Error::ArchiveTooLarge)
            } else {
                r matches Ok(b) && archive_of(ms, b@)
            }
        }),
{
    let ghost ms = member_models(members@);
    let mut ids: Vec<Vec<u8>> = Vec::new();
    let mut st: Vec<Vec<Vec<u8>>> = Vec::new();
    let mut i: usize = 0;
    while i < members.len()
        invariant
            i <= members@.len(),
            ms == member_models(members@),
            views(ids@) == member_names(ms).take(i as int),
            crate::ar::views2(st@) == member_symbols(ms).take(i as int),
            ids@.len() == i,
            st@.len() == i,
        decreases members@.len() - i,
    {
        let ghost ids0 = ids@;
        let ghost st0 = st@;
        let n = copy_bytes(&members[i].name);
        let sy = copy_names(&members[i].symbols);
        assert(ms[i as int].0 == n@);
        assert(ms[i as int].2 == views(sy@));
        ids.push(n);
        st.push(sy);
        assert forall|j: int| 0 <= j < i + 1 implies #[trigger] views(ids@)[j] == member_names(ms).take(i + 1)[j] by {
            if j < i {
                assert(views(ids0)[j] == member_names(ms).take(i as int)[j]);
            }
        }
        assert forall|j: int| 0 <= j < i + 1 implies #[trigger] crate::ar::views2(st@)[j] == member_symbols(ms).take(i + 1)[j] by {
            if j < i {
                assert(crate::ar::views2(st0)[j] == member_symbols(ms).take(i as int)[j]);
            }
        }
        i += 1;
        assert(views(ids@) =~= member_names(ms).take(i as int));
        assert(crate::ar::views2(st@) =~= member_symbols(ms).take(i as int));
    }
    assert(member_names(ms).take(i as int) == member_names(ms));
    assert(member_symbols(ms).take(i as int) == member_symbols(ms));
    let mut b = match GnuBuilder::new_with_symbol_table(true, ids, st) {
        Ok(b) => b,
        Err(e) => {
            return Err(e);
        },
    };
    let mut k: usize = 0;
    while k < members.len()
        invariant
            k <= members@.len(),
            ms == member_models(members@),
            archive_progress(b, ms, k as int),
        decreases members@.len() - k,
    {
        match append_member(&mut b, members, k, Ghost(ms)) {
            Ok(()) => {},
            Err(e) => {
                return Err(e);
            },
        }
        k += 1;
    }
    assert forall|i: int| 0 <= i < ms.len() implies #[trigger] member_offset(ms, i as nat) <= u32::MAX
        && ms[i].1.len() < 10_000_000_000 by {}
    let ghost g = b;
    let bytes = b.into_bytes();
    assert(built_from(g, ms));
    proof {
        lemma_filled_prefix(g, ms);
    }
    assert(archive_fits(ms));
    Ok(bytes)
}

/// Import library flavor
#[derive(Debug, Clone, Copy, PartialEq, Eq, Structural)]
pub enum Flavor {
    /// MSVC short import library
    Msvc,
    /// GNU(MinGW) import library
    Gnu,
}

/// An export with its external name, if any, taken as its name.
pub open spec fn normalized(e: ExportModel) -> ExportModel {
    match e.ext_name {
        Some(x) => ExportModel { name: x, ext_name: None, ..e },
        None => e,
    }
}

/// A module definition with every export normalized.
pub open spec fn normalized_def(d: DefModel) -> DefModel {
    DefModel { exports: Seq::new(d.exports.len(), |i: int| normalized(d.exports[i])), ..d }
}

/// Windows import library generator
#[derive(Debug, Clone)]
pub struct ImportLibrary {
    def: ModuleDef,
    machine: MachineType,
    flavor: Flavor,
}

/// The normalized copy of an export.
fn normalize(e: &ShortExport) -> (r: ShortExport)
    ensures
        r@ == normalized(e@),
{
    let name = match &e.ext_name {
        Some(x) => x.clone(),
        None => e.name.clone(),
    };
    ShortExport {
        name,
        ext_name: None,
        symbol_name: e.symbol_name.clone(),
        alias_target: e.alias_target.clone(),
        ordinal: e.ordinal,
        no_name: e.no_name,
        data: e.data,
        private: e.private,
        constant: e.constant,
    }
}

impl ImportLibrary {
    /// The module definition, with its exports normalized.
    pub closed spec fn def_model(&self) -> DefModel {
        self.def@
    }

    /// The target machine.
    pub closed spec fn machine_type(&self) -> MachineType {
        self.machine
    }

    /// The flavor of library.
    pub closed spec fn flavor_kind(&self) -> Flavor {
        self.flavor
    }

    /// Create new import library generator from module definition text content
    pub fn new(def: &str, machine: MachineType, flavor: Flavor) -> (r: Result<Self, Error>)
        ensures
            match crate::def::parser::parse_text(def@, machine) {
                Ok(d) => r matches Ok(l) && l.def_model() == normalized_def(d) && l.machine_type()
                    == machine && l.flavor_kind() == flavor,
                Err(e) => r matches Err(Error::ModuleDef(x)) && x@ == e,
            },
    {
        match ModuleDef::parse(def, machine) {
            Ok(d) => Ok(Self::from_def(d, machine, flavor)),
            Err(e) => Err(Error::ModuleDef(e)),
        }
    }

    /// Create new import library generator from `ModuleDef`: each export
    /// with an external name takes it as its name.
    pub fn from_def(def: ModuleDef, machine: MachineType, flavor: Flavor) -> (r: Self)
        ensures
            r.def_model() == normalized_def(def@),
            r.machine_type() == machine,
            r.flavor_kind() == flavor,
    {
        let d = normalize_def(def);
        ImportLibrary { def: d, machine, flavor }
    }

    /// Get import library name
    pub fn import_name(&self) -> (r: &str)
        ensures
            r@ == self.def_model().import_name,
    {
        self.def.import_name.as_str()
    }
}

/// Whether some export's name holds a NUL character.
pub open spec fn any_export_nul(es: Seq<ExportModel>) -> bool {
    exists|i: int| 0 <= i < es.len() && !crate::coff::no_nul(encode_utf8((#[trigger] es[i]).name))
}

/// Whether some export's name holds a NUL character.
fn export_has_nul(exports: &Vec<ShortExport>) -> (r: bool)
    ensures
        r == any_export_nul(crate::def::export_models(exports@)),
{
    let ghost es = crate::def::export_models(exports@);
    let mut i: usize = 0;
    while i < exports.len()
        invariant
            i <= exports@.len(),
            es == crate::def::export_models(exports@),
            forall|j: int| 0 <= j < i ==> crate::coff::no_nul(encode_utf8((#[trigger] es[j]).name)),
        decreases exports@.len() - i,
    {
        let name = exports[i].name.as_str().as_bytes();
        assert(es[i as int].name == exports@[i as int].name@);
        if crate::coff::has_nul(name) {
            return true;
        }
        i += 1;
    }
    false
}

/// Whether every name fits in the records of an MSVC import library.
fn names_fit_check(exports: &Vec<ShortExport>, dll: &[u8]) -> (r: bool)
    ensures
        r == crate::msvc::names_fit(crate::def::export_models(exports@), dll@),
{
    let ghost es = crate::def::export_models(exports@);
    if dll.len() > 0xffff_ffff - 151 {
        return false;
    }
    let lib_len: usize = if dll.len() >= 4 {
        dll.len() - 4
    } else {
        0
    };
    assert(lib_len == crate::msvc::library_of(dll@).len());
    if lib_len > (0xffff_ffff - 68) / 2 {
        return false;
    }
    let mut i: usize = 0;
    while i < exports.len()
        invariant
            i <= exports@.len(),
            es == crate::def::export_models(exports@),
            crate::msvc::dll_fits(dll@),
            forall|j: int| 0 <= j < i ==> crate::msvc::export_fits(#[trigger] es[j], dll@),
        decreases exports@.len() - i,
    {
        let e = &exports[i];
        assert(es[i as int] == e@);
        if !e.private {
            let sym = crate::msvc::sym_name(e).as_str().as_bytes();
            if sym.len() > 0xffff_ffff - 2 || dll.len() > 0xffff_ffff - 2 - sym.len() {
                return false;
            }
            if crate::msvc::alias_of(e) {
                let alias = e.alias_target.as_str().as_bytes();
                if alias.len() > 0xffff_ffff - 18 || sym.len() > 0xffff_ffff - 18 - alias.len() {
                    return false;
                }
            }
        }
        i += 1;
    }
    true
}

/// The members of the import library of `d` for `m` in `flavor`.
pub open spec fn library_members(d: DefModel, m: MachineType, flavor: Flavor) -> Seq<MemberModel> {
    let dll = encode_utf8(d.import_name);
    match flavor {
        Flavor::Msvc => crate::msvc::msvc_members(d.exports, m, dll),
        Flavor::Gnu => crate::gnu::gnu_members(d.exports, m, dll),
    }
}

/// Why the import library of `d` cannot be written, if it cannot.
pub open spec fn library_failure(d: DefModel, m: MachineType, flavor: Flavor) -> Option<Error> {
    let ms = library_members(d, m, flavor);
    if !crate::coff::no_nul(encode_utf8(d.import_name)) {
        Some(Error::NulInImportName)
    } else if any_export_nul(d.exports) {
        Some(Error::NulInExportName)
    } else if flavor == Flavor::Msvc && !crate::msvc::names_fit(d.exports, encode_utf8(d.import_name)) {
        Some(Error::NameTooLong)
    } else if crate::ar::sym_count(member_symbols(ms)) > u32::MAX {
        Some(Error::TooManySymbols)
    } else if !archive_fits(ms) {
        Some(Error::ArchiveTooLarge)
    } else {
        None
    }
}

/// The bytes of the import library that `def` describes.
pub fn write_library(def: &ModuleDef, machine: MachineType, flavor: Flavor) -> (r: Result<Vec<u8>, Error>)
    ensures
        match library_failure(def@, machine, flavor) {
            Some(e) => r == Err::<Vec<u8>, Error>(e),
            None => r matches Ok(b) && archive_of(library_members(def@, machine, flavor), b@),
        },
{
    if crate::coff::has_nul(def.import_name.as_str().as_bytes()) {
        return Err(Error::NulInImportName);
    }
    if export_has_nul(&def.exports) {
        return Err(Error::NulInExportName);
    }
    let dll = def.import_name.as_str().as_bytes();
    let members = match flavor {
        Flavor::Msvc => {
            if !names_fit_check(&def.exports, dll) {
                return Err(Error::NameTooLong);
            }
            crate::msvc::msvc_import_members(&def.exports, machine, dll)
        },
        Flavor::Gnu => match crate::gnu::gnu_import_members(&def.exports, machine, dll) {
            Ok(ms) => ms,
            Err(e) => {
                return Err(e);
            },
        },
    };
    build_archive(&members)
}

impl ImportLibrary {
    /// Writes out the import library: the bytes of the archive.
    pub fn write_to(&self) -> (r: Result<Vec<u8>, Error>)
        ensures
            match library_failure(self.def_model(), self.machine_type(), self.flavor_kind()) {
                Some(e) => r == Err::<Vec<u8>, Error>(e),
                None => r matches Ok(b) && archive_of(
                    library_members(self.def_model(), self.machine_type(), self.flavor_kind()),
                    b@,
                ),
            },
    {
        write_library(&self.def, self.machine, self.flavor)
    }
}

/// The copy of `def` in which every export with an external name takes it
/// as its name.
fn normalize_def(def: ModuleDef) -> (r: ModuleDef)
    ensures
        r@ == normalized_def(def@),
{
    let mut exports: Vec<ShortExport> = Vec::new();
    let mut i: usize = 0;
    while i < def.exports.len()
        invariant
            i <= def.exports@.len(),
            crate::def::export_models(exports@) == Seq::new(
                i as nat,
                |j: int| normalized(def@.exports[j]),
            ),
            exports@.len() == i,
        decreases def.exports@.len() - i,
    {
        let ghost e0 = exports@;
        let n = normalize(&def.exports[i]);
        exports.push(n);
        assert forall|j: int| 0 <= j < i + 1 implies #[trigger] crate::def::export_models(exports@)[j] == normalized(def@.exports[j]) by {
            if j < i {
                assert(crate::def::export_models(e0)[j] == normalized(def@.exports[j]));
            } else {
                assert(def@.exports[j] == def.exports@[j]@);
            }
        }
        i += 1;
        assert(crate::def::export_models(exports@) =~= Seq::new(
            i as nat,
            |j: int| normalized(def@.exports[j]),
        ));
    }
    let d = ModuleDef { exports, ..def };
    assert(d@ =~= normalized_def(def@));
    d
}

/// GNU flavored Windows import library generator
#[derive(Debug, Clone)]
pub struct GnuImportLibrary {
    def: ModuleDef,
    machine: MachineType,
}

impl GnuImportLibrary {
    /// The module definition, with its exports normalized.
    pub closed spec fn def_model(&self) -> DefModel {
        self.def@
    }

    /// The target machine.
    pub closed spec fn machine_type(&self) -> MachineType {
        self.machine
    }

    /// Create new import library generator from `ModuleDef`
    pub fn new(def: ModuleDef, machine: MachineType) -> (r: Self)
        ensures
            r.def_model() == normalized_def(def@),
            r.machine_type() == machine,
    {
        GnuImportLibrary { def: normalize_def(def), machine }
    }

    /// Write out the import library
    pub fn write_to(&self) -> (r: Result<Vec<u8>, Error>)
        ensures
            match library_failure(self.def_model(), self.machine_type(), Flavor::Gnu) {
                Some(e) => r == Err::<Vec<u8>, Error>(e),
                None => r matches Ok(b) && archive_of(
                    library_members(self.def_model(), self.machine_type(), Flavor::Gnu),
                    b@,
                ),
            },
    {
        write_library(&self.def, self.machine, Flavor::Gnu)
    }
}

} // verus!

//! Members of an MSVC-flavored import library: short-import records and the
//! import descriptor objects.

use vstd::prelude::*;

use crate::coff::{
    file_header, le16, le32, long_name, name8, nul_terminated, push_bytes, push_file_header, push_le16,
    push_le32, push_long_symbol, push_relocation, push_section_header, push_short_symbol,
    relocation, section_header, string_table, symbol,
};
use vstd::string::StringSliceAdditionalSpecFns;
use vstd::utf8::encode_utf8;

use crate::def::{ExportModel, ShortExport};
use crate::{img_rel_type, is_32bit, machine_code, member_models, ArchiveMember, MachineType, MemberModel};

verus! {

/// Initialized, readable, writable data aligned to 4 bytes.
pub open spec fn data_align4() -> u32 {
    0xc030_0040
}

/// The characteristics of the file header: 32-bit targets say so.
pub open spec fn file_characteristics(m: MachineType) -> u16 {
    if is_32bit(m) {
        0x0100
    } else {
        0
    }
}

/// `n` zero bytes.
pub open spec fn zeros(n: nat) -> Seq<u8> {
    Seq::new(n, |i: int| 0u8)
}

/// `__IMPORT_DESCRIPTOR_<lib>`.
pub open spec fn descriptor_symbol(lib: Seq<u8>) -> Seq<u8> {
    seq![95u8, 95u8, 73u8, 77u8, 80u8, 79u8, 82u8, 84u8, 95u8, 68u8, 69u8, 83u8, 67u8, 82u8, 73u8, 80u8, 84u8, 79u8, 82u8, 95u8] + lib
}

/// `__NULL_IMPORT_DESCRIPTOR`.
pub open spec fn null_descriptor_symbol() -> Seq<u8> {
    seq![95u8, 95u8, 78u8, 85u8, 76u8, 76u8, 95u8, 73u8, 77u8, 80u8, 79u8, 82u8, 84u8, 95u8, 68u8, 69u8, 83u8, 67u8, 82u8, 73u8, 80u8, 84u8, 79u8, 82u8]
}

/// `\x7f<lib>_NULL_THUNK_DATA`.
pub open spec fn null_thunk_symbol(lib: Seq<u8>) -> Seq<u8> {
    seq![0x7fu8] + lib + seq![95u8, 78u8, 85u8, 76u8, 76u8, 95u8, 84u8, 72u8, 85u8, 78u8, 75u8, 95u8, 68u8, 65u8, 84u8, 65u8]
}

/// `__imp_`.
pub open spec fn imp_prefix() -> Seq<u8> {
    seq![95u8, 95u8, 105u8, 109u8, 112u8, 95u8]
}

/// The import descriptor object of the DLL `dll`, whose name without its
/// extension is `lib`.
#[verifier::opaque]
pub open spec fn import_descriptor(m: MachineType, dll: Seq<u8>, lib: Seq<u8>) -> Seq<u8> {
    let n = dll.len() + 1;
    let s0 = descriptor_symbol(lib);
    let s1 = null_descriptor_symbol();
    let s2 = null_thunk_symbol(lib);
    let ir = img_rel_type(m);
    file_header(machine_code(m), 2, 150 + n, 7, file_characteristics(m)) + section_header(
        seq![46u8, 105u8, 100u8, 97u8, 116u8, 97u8, 36u8, 50u8],
        20,
        100,
        120,
        3,
        data_align4(),
    ) + section_header(
        seq![46u8, 105u8, 100u8, 97u8, 116u8, 97u8, 36u8, 54u8],
        n,
        150,
        0,
        0,
        0xc020_0040,
    ) + zeros(20) + relocation(12, 2, ir) + relocation(0, 3, ir) + relocation(16, 4, ir) + dll
        + seq![0u8] + symbol(long_name(4), 1, 2, 0) + symbol(
        name8(seq![46u8, 105u8, 100u8, 97u8, 116u8, 97u8, 36u8, 50u8]),
        1,
        0x68,
        0,
    ) + symbol(name8(seq![46u8, 105u8, 100u8, 97u8, 116u8, 97u8, 36u8, 54u8]), 2, 3, 0) + symbol(
        name8(seq![46u8, 105u8, 100u8, 97u8, 116u8, 97u8, 36u8, 52u8]),
        0,
        0x68,
        0,
    ) + symbol(name8(seq![46u8, 105u8, 100u8, 97u8, 116u8, 97u8, 36u8, 53u8]), 0, 0x68, 0) + symbol(
        long_name(4 + s0.len() + 1),
        0,
        2,
        0,
    ) + symbol(long_name(4 + s0.len() + 1 + s1.len() + 1), 0, 2, 0) + string_table(
        seq![s0, s1, s2],
    )
}

/// The null import descriptor object, which ends the import directory.
#[verifier::opaque]
pub open spec fn null_import_descriptor(m: MachineType) -> Seq<u8> {
    file_header(machine_code(m), 1, 80, 1, file_characteristics(m)) + section_header(
        seq![46u8, 105u8, 100u8, 97u8, 116u8, 97u8, 36u8, 51u8],
        20,
        60,
        0,
        0,
        data_align4(),
    ) + zeros(20) + symbol(long_name(4), 1, 2, 0) + string_table(seq![null_descriptor_symbol()])
}

/// The null thunk object, which ends the lookup and address tables.
#[verifier::opaque]
pub open spec fn null_thunk(m: MachineType, lib: Seq<u8>) -> Seq<u8> {
    let va: nat = if is_32bit(m) {
        4
    } else {
        8
    };
    let align: u32 = if is_32bit(m) {
        0xc030_0040
    } else {
        0xc040_0040
    };
    file_header(machine_code(m), 2, 100 + 2 * va, 1, file_characteristics(m)) + section_header(
        seq![46u8, 105u8, 100u8, 97u8, 116u8, 97u8, 36u8, 53u8],
        va,
        100,
        0,
        0,
        align,
    ) + section_header(seq![46u8, 105u8, 100u8, 97u8, 116u8, 97u8, 36u8, 52u8], va, 100 + va, 0, 0, align)
        + zeros(va) + zeros(va) + symbol(long_name(4), 1, 2, 0) + string_table(
        seq![null_thunk_symbol(lib)],
    )
}

/// The object that makes `weak` (or `__imp_weak`) a weak alias of `sym`
/// (or `__imp_sym`).
#[verifier::opaque]
pub open spec fn weak_external(m: MachineType, sym: Seq<u8>, weak: Seq<u8>, imp: bool) -> Seq<u8> {
    let prefix = if imp {
        imp_prefix()
    } else {
        seq![]
    };
    let a = prefix + sym;
    let b = prefix + weak;
    file_header(machine_code(m), 1, 60, 5, 0) + section_header(
        seq![46u8, 100u8, 114u8, 101u8, 99u8, 116u8, 118u8, 101u8],
        0,
        0,
        0,
        0,
        0x0a00,
    ) + symbol(name8(seq![64u8, 99u8, 111u8, 109u8, 112u8, 46u8, 105u8, 100u8]), 0xffff, 3, 0) + symbol(
        name8(seq![64u8, 102u8, 101u8, 97u8, 116u8, 46u8, 48u8, 48u8]),
        0xffff,
        3,
        0,
    ) + symbol(long_name(4), 0, 2, 0) + symbol(long_name(4 + a.len() + 1), 0, 0x69, 1) + le32(2)
        + le32(3) + zeros(10) + string_table(seq![a, b])
}

/// A short-import record: a 20-byte header, then `sym` and `dll`, each
/// NUL-terminated.
#[verifier::opaque]
pub open spec fn short_import(
    m: MachineType,
    sym: Seq<u8>,
    dll: Seq<u8>,
    ordinal: u16,
    name_type: nat,
    import_type: nat,
) -> Seq<u8> {
    le16(0) + le16(0xffff) + le16(0) + le16(machine_code(m) as nat) + le32(0) + le32(
        sym.len() + dll.len() + 2,
    ) + le16(ordinal as nat) + le16(name_type * 4 + import_type) + sym + seq![0u8] + dll + seq![
        0u8,
    ]
}

/// Appends `n` zero bytes.
fn push_zeros(out: &mut Vec<u8>, n: usize)
    ensures
        final(out)@ == old(out)@ + zeros(n as nat),
{
    let ghost s0 = out@;
    let mut i: usize = 0;
    while i < n
        invariant
            i <= n,
            out@ == s0 + zeros(i as nat),
        decreases n - i,
    {
        out.push(0u8);
        i += 1;
        assert(out@ =~= s0 + zeros(i as nat));
    }
}

proof fn lemma_nul3(a: Seq<u8>, b: Seq<u8>, c: Seq<u8>)
    ensures
        nul_terminated(seq![a]).len() == a.len() + 1,
        nul_terminated(seq![a, b]).len() == a.len() + b.len() + 2,
        nul_terminated(seq![a, b, c]).len() == a.len() + b.len() + c.len() + 3,
{
    reveal_with_fuel(nul_terminated, 4);
    assert(seq![a, b, c].drop_last() =~= seq![a, b]);
    assert(seq![a, b].drop_last() =~= seq![a]);
    assert(seq![a].drop_last() =~= Seq::<Seq<u8>>::empty());
}

/// Appends a string table holding `names`.
fn push_string_table(out: &mut Vec<u8>, names: &Vec<Vec<u8>>)
    requires
        4 + nul_terminated(crate::ar::views(names@)).len() <= u32::MAX,
    ensures
        final(out)@ == old(out)@ + string_table(crate::ar::views(names@)),
{
    let ghost ns = crate::ar::views(names@);
    let mut body: Vec<u8> = Vec::new();
    let mut i: usize = 0;
    while i < names.len()
        invariant
            i <= names@.len(),
            ns == crate::ar::views(names@),
            body@ == nul_terminated(ns.take(i as int)),
            4 + nul_terminated(ns).len() <= u32::MAX,
        decreases names@.len() - i,
    {
        push_bytes(&mut body, names[i].as_slice());
        body.push(0u8);
        assert(ns.take(i + 1).drop_last() == ns.take(i as int));
        assert(body@ =~= nul_terminated(ns.take(i + 1)));
        i += 1;
    }
    assert(ns.take(i as int) == ns);
    assert(body@.len() + 4 <= u32::MAX);
    push_le32(out, (4 + body.len()) as u32);
    push_bytes(out, body.as_slice());
}

/// The bytes of `__IMPORT_DESCRIPTOR_`.
fn descriptor_prefix() -> (r: Vec<u8>)
    ensures
        r@ == seq![95u8, 95u8, 73u8, 77u8, 80u8, 79u8, 82u8, 84u8, 95u8, 68u8, 69u8, 83u8, 67u8, 82u8, 73u8, 80u8, 84u8, 79u8, 82u8, 95u8],
{
    let r: Vec<u8> = vec![95u8, 95u8, 73u8, 77u8, 80u8, 79u8, 82u8, 84u8, 95u8, 68u8, 69u8, 83u8, 67u8, 82u8, 73u8, 80u8, 84u8, 79u8, 82u8, 95u8];
    assert(r@ =~= seq![95u8, 95u8, 73u8, 77u8, 80u8, 79u8, 82u8, 84u8, 95u8, 68u8, 69u8, 83u8, 67u8, 82u8, 73u8, 80u8, 84u8, 79u8, 82u8, 95u8]);
    r
}

/// The bytes of `__NULL_IMPORT_DESCRIPTOR`.
fn null_descriptor_name() -> (r: Vec<u8>)
    ensures
        r@ == seq![95u8, 95u8, 78u8, 85u8, 76u8, 76u8, 95u8, 73u8, 77u8, 80u8, 79u8, 82u8, 84u8, 95u8, 68u8, 69u8, 83u8, 67u8, 82u8, 73u8, 80u8, 84u8, 79u8, 82u8],
{
    let r: Vec<u8> = vec![95u8, 95u8, 78u8, 85u8, 76u8, 76u8, 95u8, 73u8, 77u8, 80u8, 79u8, 82u8, 84u8, 95u8, 68u8, 69u8, 83u8, 67u8, 82u8, 73u8, 80u8, 84u8, 79u8, 82u8];
    assert(r@ =~= seq![95u8, 95u8, 78u8, 85u8, 76u8, 76u8, 95u8, 73u8, 77u8, 80u8, 79u8, 82u8, 84u8, 95u8, 68u8, 69u8, 83u8, 67u8, 82u8, 73u8, 80u8, 84u8, 79u8, 82u8]);
    r
}

/// The bytes of `_NULL_THUNK_DATA`.
fn null_thunk_suffix() -> (r: Vec<u8>)
    ensures
        r@ == seq![95u8, 78u8, 85u8, 76u8, 76u8, 95u8, 84u8, 72u8, 85u8, 78u8, 75u8, 95u8, 68u8, 65u8, 84u8, 65u8],
{
    let r: Vec<u8> = vec![95u8, 78u8, 85u8, 76u8, 76u8, 95u8, 84u8, 72u8, 85u8, 78u8, 75u8, 95u8, 68u8, 65u8, 84u8, 65u8];
    assert(r@ =~= seq![95u8, 78u8, 85u8, 76u8, 76u8, 95u8, 84u8, 72u8, 85u8, 78u8, 75u8, 95u8, 68u8, 65u8, 84u8, 65u8]);
    r
}

/// The bytes of `__imp_`.
pub(crate) fn imp_prefix_bytes() -> (r: Vec<u8>)
    ensures
        r@ == seq![95u8, 95u8, 105u8, 109u8, 112u8, 95u8],
{
    let r: Vec<u8> = vec![95u8, 95u8, 105u8, 109u8, 112u8, 95u8];
    assert(r@ =~= seq![95u8, 95u8, 105u8, 109u8, 112u8, 95u8]);
    r
}

/// The bytes of `.drectve`.
fn drectve_name() -> (r: Vec<u8>)
    ensures
        r@ == seq![46u8, 100u8, 114u8, 101u8, 99u8, 116u8, 118u8, 101u8],
{
    let r: Vec<u8> = vec![46u8, 100u8, 114u8, 101u8, 99u8, 116u8, 118u8, 101u8];
    assert(r@ =~= seq![46u8, 100u8, 114u8, 101u8, 99u8, 116u8, 118u8, 101u8]);
    r
}

/// The bytes of `@comp.id`.
fn comp_id_name() -> (r: Vec<u8>)
    ensures
        r@ == seq![64u8, 99u8, 111u8, 109u8, 112u8, 46u8, 105u8, 100u8],
{
    let r: Vec<u8> = vec![64u8, 99u8, 111u8, 109u8, 112u8, 46u8, 105u8, 100u8];
    assert(r@ =~= seq![64u8, 99u8, 111u8, 109u8, 112u8, 46u8, 105u8, 100u8]);
    r
}

/// The bytes of `@feat.00`.
fn feat_name() -> (r: Vec<u8>)
    ensures
        r@ == seq![64u8, 102u8, 101u8, 97u8, 116u8, 46u8, 48u8, 48u8],
{
    let r: Vec<u8> = vec![64u8, 102u8, 101u8, 97u8, 116u8, 46u8, 48u8, 48u8];
    assert(r@ =~= seq![64u8, 102u8, 101u8, 97u8, 116u8, 46u8, 48u8, 48u8]);
    r
}

/// The bytes of `.idata$<d>` for the ASCII digit `d`.
pub(crate) fn idata_name(d: u8) -> (r: Vec<u8>)
    ensures
        r@ == seq![46u8, 105u8, 100u8, 97u8, 116u8, 97u8, 36u8, d],
{
    let r: Vec<u8> = vec![46u8, 105u8, 100u8, 97u8, 116u8, 97u8, 36u8, d];
    assert(r@ =~= seq![46u8, 105u8, 100u8, 97u8, 116u8, 97u8, 36u8, d]);
    r
}

/// `a` followed by `b`.
fn concat(a: &[u8], b: &[u8]) -> (r: Vec<u8>)
    ensures
        r@ == a@ + b@,
{
    let mut r: Vec<u8> = Vec::new();
    push_bytes(&mut r, a);
    push_bytes(&mut r, b);
    assert(r@ =~= a@ + b@);
    r
}

/// The characteristics of the file header for `m`.
fn characteristics_of(m: MachineType) -> (r: u16)
    ensures
        r == file_characteristics(m),
{
    if m.is_32bit() {
        0x0100
    } else {
        0
    }
}

/// The import descriptor object.
#[verifier::rlimit(60)]
pub fn make_import_descriptor(m: MachineType, dll: &[u8], lib: &[u8]) -> (r: Vec<u8>)
    requires
        dll@.len() + 151 <= u32::MAX,
        2 * lib@.len() + 68 <= u32::MAX,
    ensures
        r@ == import_descriptor(m, dll@, lib@),
{
    reveal(import_descriptor);
    let mut s0 = descriptor_prefix();
    push_bytes(&mut s0, lib);
    let s1 = null_descriptor_name();
    let mut s2: Vec<u8> = vec![0x7fu8];
    push_bytes(&mut s2, lib);
    let suffix = null_thunk_suffix();
    push_bytes(&mut s2, suffix.as_slice());
    assert(s0@ =~= descriptor_symbol(lib@));
    assert(s1@ =~= null_descriptor_symbol());
    assert(s2@ =~= null_thunk_symbol(lib@));
    let n: u32 = (dll.len() + 1) as u32;
    let ir = m.img_rel_relocation();
    let mut out: Vec<u8> = Vec::new();
    push_file_header(&mut out, m.machine_value(), 2, 150 + n, 7, characteristics_of(m));
    let id2 = idata_name(50u8);
    let id6 = idata_name(54u8);
    let id4 = idata_name(52u8);
    let id5 = idata_name(53u8);
    push_section_header(&mut out, id2.as_slice(), 20, 100, 120, 3, 0xc030_0040);
    push_section_header(&mut out, id6.as_slice(), n, 150, 0, 0, 0xc020_0040);
    push_zeros(&mut out, 20);
    push_relocation(&mut out, 12, 2, ir);
    push_relocation(&mut out, 0, 3, ir);
    push_relocation(&mut out, 16, 4, ir);
    push_bytes(&mut out, dll);
    out.push(0u8);
    push_long_symbol(&mut out, 4, 1, 2, 0);
    push_short_symbol(&mut out, id2.as_slice(), 1, 0x68, 0);
    push_short_symbol(&mut out, id6.as_slice(), 2, 3, 0);
    push_short_symbol(&mut out, id4.as_slice(), 0, 0x68, 0);
    push_short_symbol(&mut out, id5.as_slice(), 0, 0x68, 0);
    push_long_symbol(&mut out, (4 + s0.len() + 1) as u32, 0, 2, 0);
    push_long_symbol(&mut out, (4 + s0.len() + 1 + s1.len() + 1) as u32, 0, 2, 0);
    let names: Vec<Vec<u8>> = vec![s0, s1, s2];
    proof {
        let ns = crate::ar::views(names@);
        assert(ns =~= seq![descriptor_symbol(lib@), null_descriptor_symbol(), null_thunk_symbol(lib@)]);
        lemma_nul3(ns[0], ns[1], ns[2]);
    }
    push_string_table(&mut out, &names);
    assert(out@ =~= import_descriptor(m, dll@, lib@));
    out
}

/// The null import descriptor object.
pub fn make_null_import_descriptor(m: MachineType) -> (r: Vec<u8>)
    ensures
        r@ == null_import_descriptor(m),
{
    reveal(null_import_descriptor);
    let mut out: Vec<u8> = Vec::new();
    push_file_header(&mut out, m.machine_value(), 1, 80, 1, characteristics_of(m));
    let id3 = idata_name(51u8);
    push_section_header(&mut out, id3.as_slice(), 20, 60, 0, 0, 0xc030_0040);
    push_zeros(&mut out, 20);
    push_long_symbol(&mut out, 4, 1, 2, 0);
    let names: Vec<Vec<u8>> = vec![null_descriptor_name()];
    proof {
        let ns = crate::ar::views(names@);
        assert(ns =~= seq![null_descriptor_symbol()]);
        lemma_nul3(ns[0], ns[0], ns[0]);
    }
    push_string_table(&mut out, &names);
    assert(out@ =~= null_import_descriptor(m));
    out
}

/// The null thunk object.
pub fn make_null_thunk(m: MachineType, lib: &[u8]) -> (r: Vec<u8>)
    requires
        2 * lib@.len() + 68 <= u32::MAX,
    ensures
        r@ == null_thunk(m, lib@),
{
    reveal(null_thunk);
    let (va, align): (u32, u32) = if m.is_32bit() {
        (4, 0xc030_0040)
    } else {
        (8, 0xc040_0040)
    };
    let mut out: Vec<u8> = Vec::new();
    push_file_header(&mut out, m.machine_value(), 2, 100 + 2 * va, 1, characteristics_of(m));
    let id5 = idata_name(53u8);
    let id4 = idata_name(52u8);
    push_section_header(&mut out, id5.as_slice(), va, 100, 0, 0, align);
    push_section_header(&mut out, id4.as_slice(), va, 100 + va, 0, 0, align);
    push_zeros(&mut out, va as usize);
    push_zeros(&mut out, va as usize);
    push_long_symbol(&mut out, 4, 1, 2, 0);
    let mut s: Vec<u8> = vec![0x7fu8];
    push_bytes(&mut s, lib);
    let suffix = null_thunk_suffix();
    push_bytes(&mut s, suffix.as_slice());
    assert(s@ =~= null_thunk_symbol(lib@));
    let names: Vec<Vec<u8>> = vec![s];
    proof {
        let ns = crate::ar::views(names@);
        assert(ns =~= seq![null_thunk_symbol(lib@)]);
        lemma_nul3(ns[0], ns[0], ns[0]);
    }
    push_string_table(&mut out, &names);
    assert(out@ =~= null_thunk(m, lib@));
    out
}

/// The weak external object aliasing `weak` to `sym`.
pub fn make_weak_external(m: MachineType, sym: &[u8], weak: &[u8], imp: bool) -> (r: Vec<u8>)
    requires
        sym@.len() + weak@.len() + 18 <= u32::MAX,
    ensures
        r@ == weak_external(m, sym@, weak@, imp),
{
    reveal(weak_external);
    let prefix: Vec<u8> = if imp {
        imp_prefix_bytes()
    } else {
        Vec::new()
    };
    assert(prefix@ =~= if imp {
        imp_prefix()
    } else {
        seq![]
    });
    let a = concat(prefix.as_slice(), sym);
    let b = concat(prefix.as_slice(), weak);
    let mut out: Vec<u8> = Vec::new();
    push_file_header(&mut out, m.machine_value(), 1, 60, 5, 0);
    let drectve = drectve_name();
    push_section_header(&mut out, drectve.as_slice(), 0, 0, 0, 0, 0x0a00);
    let comp = comp_id_name();
    let feat = feat_name();
    push_short_symbol(&mut out, comp.as_slice(), 0xffff, 3, 0);
    push_short_symbol(&mut out, feat.as_slice(), 0xffff, 3, 0);
    push_long_symbol(&mut out, 4, 0, 2, 0);
    push_long_symbol(&mut out, (4 + a.len() + 1) as u32, 0, 0x69, 1);
    push_le32(&mut out, 2);
    push_le32(&mut out, 3);
    push_zeros(&mut out, 10);
    let ghost av = a@;
    let ghost bv = b@;
    let names: Vec<Vec<u8>> = vec![a, b];
    proof {
        let ns = crate::ar::views(names@);
        assert(ns =~= seq![av, bv]);
        lemma_nul3(av, bv, bv);
    }
    push_string_table(&mut out, &names);
    assert(out@ =~= weak_external(m, sym@, weak@, imp));
    out
}

/// The short-import record for `sym` from `dll`.
pub fn make_short_import(
    m: MachineType,
    sym: &[u8],
    dll: &[u8],
    ordinal: u16,
    name_type: u16,
    import_type: u16,
) -> (r: Vec<u8>)
    requires
        sym@.len() + dll@.len() + 2 <= u32::MAX,
        name_type < 4,
        import_type < 4,
    ensures
        r@ == short_import(m, sym@, dll@, ordinal, name_type as nat, import_type as nat),
{
    reveal(short_import);
    let mut out: Vec<u8> = Vec::new();
    push_le16(&mut out, 0);
    push_le16(&mut out, 0xffff);
    push_le16(&mut out, 0);
    push_le16(&mut out, m.machine_value());
    push_le32(&mut out, 0);
    push_le32(&mut out, (sym.len() + dll.len() + 2) as u32);
    push_le16(&mut out, ordinal);
    push_le16(&mut out, name_type * 4 + import_type);
    push_bytes(&mut out, sym);
    out.push(0u8);
    push_bytes(&mut out, dll);
    out.push(0u8);
    assert(out@ =~= short_import(m, sym@, dll@, ordinal, name_type as nat, import_type as nat));
    out
}

/// The import type of an export: data, constant, or code.
pub open spec fn import_type_of(e: ExportModel) -> nat {
    if e.data {
        1
    } else if e.constant {
        2
    } else {
        0
    }
}

/// The name under which an export is imported.
pub open spec fn sym_of(e: ExportModel) -> Seq<char> {
    if e.symbol_name.len() > 0 {
        e.symbol_name
    } else {
        e.name
    }
}

/// How the loader finds an export: by ordinal, by name, by name without
/// prefix, or by undecorated name.
pub open spec fn name_type_of(e: ExportModel, m: MachineType) -> nat {
    let sym = sym_of(e);
    if e.no_name {
        0
    } else if e.name.len() > 0 && e.name[0] == '_' && e.name.contains('@') {
        1
    } else if sym != e.name {
        3
    } else if m == MachineType::I386 && sym.len() > 0 && sym[0] == '_' {
        2
    } else {
        1
    }
}

/// The DLL name without its last four characters (its extension).
pub open spec fn library_of(dll: Seq<u8>) -> Seq<u8> {
    if dll.len() >= 4 {
        dll.subrange(0, dll.len() - 4)
    } else {
        seq![]
    }
}

/// The archive symbols of a short-import member.
pub open spec fn short_import_symbols(sym: Seq<u8>, import_type: nat) -> Seq<Seq<u8>> {
    if import_type == 1 {
        seq![imp_prefix() + sym]
    } else {
        seq![imp_prefix() + sym, sym]
    }
}

/// Whether an export gets weak-alias members.
pub open spec fn has_alias(e: ExportModel) -> bool {
    e.alias_target.len() > 0 && e.alias_target != sym_of(e)
}

/// The members of one export: none when private; else the two weak
/// aliases (when it has an alias target), then its short-import record.
pub open spec fn export_members(e: ExportModel, m: MachineType, dll: Seq<u8>) -> Seq<MemberModel> {
    let sym = encode_utf8(sym_of(e));
    let short: MemberModel = (
        dll,
        short_import(m, sym, dll, e.ordinal, name_type_of(e, m), import_type_of(e)),
        short_import_symbols(sym, import_type_of(e)),
    );
    if e.private {
        seq![]
    } else if has_alias(e) {
        let alias = encode_utf8(e.alias_target);
        seq![
            (dll, weak_external(m, alias, sym, false), seq![]),
            (dll, weak_external(m, alias, sym, true), seq![]),
            short,
        ]
    } else {
        seq![short]
    }
}

/// The members of all exports, in order.
pub open spec fn exports_members(es: Seq<ExportModel>, m: MachineType, dll: Seq<u8>) -> Seq<
    MemberModel,
>
    decreases es.len(),
{
    if es.len() == 0 {
        seq![]
    } else {
        exports_members(es.drop_last(), m, dll) + export_members(es.last(), m, dll)
    }
}

/// The three members that every MSVC import library of `dll` starts with:
/// import descriptor, null import descriptor, null thunk.
pub open spec fn msvc_head(m: MachineType, dll: Seq<u8>) -> Seq<MemberModel> {
    let lib = library_of(dll);
    seq![
        (dll, import_descriptor(m, dll, lib), seq![descriptor_symbol(lib)]),
        (dll, null_import_descriptor(m), seq![null_descriptor_symbol()]),
        (dll, null_thunk(m, lib), seq![null_thunk_symbol(lib)]),
    ]
}

/// The members of an MSVC import library for the DLL `dll`.
pub open spec fn msvc_members(es: Seq<ExportModel>, m: MachineType, dll: Seq<u8>) -> Seq<
    MemberModel,
> {
    msvc_head(m, dll) + exports_members(es, m, dll)
}

/// Whether the DLL name fits the 32-bit size and offset fields of the
/// import descriptor and null thunk objects.
pub open spec fn dll_fits(dll: Seq<u8>) -> bool {
    dll.len() + 151 <= u32::MAX && 2 * library_of(dll).len() + 68 <= u32::MAX
}

/// Whether an export's members fit their 32-bit fields: the short-import
/// data size, and the string table of its weak-alias objects.
pub open spec fn export_fits(e: ExportModel, dll: Seq<u8>) -> bool {
    let sym = encode_utf8(sym_of(e));
    e.private || (sym.len() + dll.len() + 2 <= u32::MAX && (has_alias(e) ==> encode_utf8(
        e.alias_target,
    ).len() + sym.len() + 18 <= u32::MAX))
}

/// Whether every name that goes into a member fits its 32-bit fields.
pub open spec fn names_fit(es: Seq<ExportModel>, dll: Seq<u8>) -> bool {
    &&& dll_fits(dll)
    &&& forall|i: int| 0 <= i < es.len() ==> export_fits(#[trigger] es[i], dll)
}

/// Whether `s` starts with `_`.
fn is_underscore_at_zero(s: &Vec<char>) -> (r: bool)
    ensures
        r == (s@.len() > 0 && s@[0] == '_'),
{
    s.len() > 0 && s[0] == '_'
}

/// Whether `c` occurs in `s`.
pub(crate) fn contains_char(s: &Vec<char>, c: char) -> (r: bool)
    ensures
        r == s@.contains(c),
{
    let mut i: usize = 0;
    while i < s.len()
        invariant
            i <= s@.len(),
            forall|j: int| 0 <= j < i ==> s@[j] != c,
        decreases s@.len() - i,
    {
        if s[i] == c {
            assert(s@[i as int] == c);
            return true;
        }
        i += 1;
    }
    false
}

/// Whether two character strings are equal.
fn chars_equal(a: &Vec<char>, b: &Vec<char>) -> (r: bool)
    ensures
        r == (a@ == b@),
{
    if a.len() != b.len() {
        return false;
    }
    let mut i: usize = 0;
    while i < a.len()
        invariant
            i <= a@.len(),
            a@.len() == b@.len(),
            forall|j: int| 0 <= j < i ==> a@[j] == b@[j],
        decreases a@.len() - i,
    {
        if a[i] != b[i] {
            return false;
        }
        i += 1;
    }
    assert(a@ =~= b@);
    true
}

/// The name under which `e` is imported.
pub(crate) fn sym_name(e: &ShortExport) -> (r: &String)
    ensures
        r@ == sym_of(e@),
{
    let sn = e.symbol_name.as_str();
    if !sn.is_empty() {
        &e.symbol_name
    } else {
        &e.name
    }
}

/// The name type and import type of `e`.
fn types_of(e: &ShortExport, m: MachineType) -> (r: (u16, u16))
    ensures
        r.0 as nat == name_type_of(e@, m),
        r.1 as nat == import_type_of(e@),
        r.0 < 4,
        r.1 < 4,
{
    let sym_str = sym_name(e);
    let name_chars = crate::text::chars_of(e.name.as_str());
    let sym_chars = crate::text::chars_of(sym_str.as_str());
    let import_type: u16 = if e.data {
        1
    } else if e.constant {
        2
    } else {
        0
    };
    let name_type: u16 = if e.no_name {
        0
    } else if is_underscore_at_zero(&name_chars) && contains_char(&name_chars, '@') {
        1
    } else if !chars_equal(&sym_chars, &name_chars) {
        3
    } else if m == MachineType::I386 && is_underscore_at_zero(&sym_chars) {
        2
    } else {
        1
    };
    (name_type, import_type)
}

/// Whether `e` gets weak-alias members.
pub(crate) fn alias_of(e: &ShortExport) -> (r: bool)
    ensures
        r == has_alias(e@),
{
    let sym_str = sym_name(e);
    let sym_chars = crate::text::chars_of(sym_str.as_str());
    let alias_chars = crate::text::chars_of(e.alias_target.as_str());
    alias_chars.len() > 0 && !chars_equal(&alias_chars, &sym_chars)
}

/// The short-import member of `e`.
fn short_member(e: &ShortExport, m: MachineType, dll: &[u8]) -> (r: ArchiveMember)
    requires
        encode_utf8(sym_of(e@)).len() + dll@.len() + 2 <= u32::MAX,
    ensures
        r@ == (
            dll@,
            short_import(
                m,
                encode_utf8(sym_of(e@)),
                dll@,
                e@.ordinal,
                name_type_of(e@, m),
                import_type_of(e@),
            ),
            short_import_symbols(encode_utf8(sym_of(e@)), import_type_of(e@)),
        ),
{
    let sym = sym_name(e).as_str().as_bytes();
    let (name_type, import_type) = types_of(e, m);
    let data = make_short_import(m, sym, dll, e.ordinal, name_type, import_type);
    let mut syms: Vec<Vec<u8>> = Vec::new();
    let prefix = imp_prefix_bytes();
    syms.push(concat(prefix.as_slice(), sym));
    if import_type != 1 {
        syms.push(concat(sym, &[]));
    }
    assert(crate::ar::views(syms@) =~= short_import_symbols(sym@, import_type as nat));
    ArchiveMember { name: concat(dll, &[]), data, symbols: syms }
}

/// Appends the members of one export.
fn make_export_members(e: &ShortExport, m: MachineType, dll: &[u8], out: &mut Vec<ArchiveMember>)
    requires
        export_fits(e@, dll@),
    ensures
        member_models(final(out)@) == member_models(old(out)@) + export_members(e@, m, dll@),
{
    let ghost before = member_models(out@);
    if e.private {
        assert(member_models(out@) =~= before + export_members(e@, m, dll@));
        return;
    }
    if alias_of(e) {
        let sym = sym_name(e).as_str().as_bytes();
        let alias = e.alias_target.as_str().as_bytes();
        let w0 = make_weak_external(m, alias, sym, false);
        let w1 = make_weak_external(m, alias, sym, true);
        let none0: Vec<Vec<u8>> = Vec::new();
        let none1: Vec<Vec<u8>> = Vec::new();
        assert(crate::ar::views(none0@) =~= seq![]);
        assert(crate::ar::views(none1@) =~= seq![]);
        out.push(ArchiveMember { name: concat(dll, &[]), data: w0, symbols: none0 });
        out.push(ArchiveMember { name: concat(dll, &[]), data: w1, symbols: none1 });
    }
    let short = short_member(e, m, dll);
    out.push(short);
    assert(member_models(out@) =~= before + export_members(e@, m, dll@));
}

/// The three members that start an MSVC import library of `dll`.
fn head_members(m: MachineType, dll: &[u8]) -> (r: Vec<ArchiveMember>)
    requires
        dll_fits(dll@),
    ensures
        member_models(r@) == msvc_head(m, dll@),
{
    let lib: Vec<u8> = if dll.len() >= 4 {
        let mut l: Vec<u8> = Vec::new();
        let mut i: usize = 0;
        while i < dll.len() - 4
            invariant
                dll@.len() >= 4,
                i <= dll@.len() - 4,
                l@ == dll@.subrange(0, i as int),
            decreases dll@.len() - 4 - i,
        {
            l.push(dll[i]);
            i += 1;
            assert(l@ =~= dll@.subrange(0, i as int));
        }
        l
    } else {
        Vec::new()
    };
    assert(lib@ =~= library_of(dll@));
    let mut out: Vec<ArchiveMember> = Vec::new();
    let mut s0 = descriptor_prefix();
    push_bytes(&mut s0, lib.as_slice());
    assert(s0@ =~= descriptor_symbol(lib@));
    let mut sy0: Vec<Vec<u8>> = Vec::new();
    sy0.push(s0);
    assert(crate::ar::views(sy0@) =~= seq![descriptor_symbol(lib@)]);
    out.push(ArchiveMember {
        name: concat(dll, &[]),
        data: make_import_descriptor(m, dll, lib.as_slice()),
        symbols: sy0,
    });
    let mut sy1: Vec<Vec<u8>> = Vec::new();
    sy1.push(null_descriptor_name());
    assert(crate::ar::views(sy1@) =~= seq![null_descriptor_symbol()]);
    out.push(ArchiveMember { name: concat(dll, &[]), data: make_null_import_descriptor(m), symbols: sy1 });
    let mut s2: Vec<u8> = vec![0x7fu8];
    push_bytes(&mut s2, lib.as_slice());
    let suffix = null_thunk_suffix();
    push_bytes(&mut s2, suffix.as_slice());
    assert(s2@ =~= null_thunk_symbol(lib@));
    let mut sy2: Vec<Vec<u8>> = Vec::new();
    sy2.push(s2);
    assert(crate::ar::views(sy2@) =~= seq![null_thunk_symbol(lib@)]);
    out.push(ArchiveMember {
        name: concat(dll, &[]),
        data: make_null_thunk(m, lib.as_slice()),
        symbols: sy2,
    });
    assert(member_models(out@) =~= msvc_head(m, dll@));
    out
}

/// The members of an MSVC import library for `exports` from the DLL `dll`.
pub fn msvc_import_members(exports: &Vec<ShortExport>, m: MachineType, dll: &[u8]) -> (r: Vec<ArchiveMember>)
    requires
        names_fit(crate::def::export_models(exports@), dll@),
    ensures
        member_models(r@) == msvc_members(crate::def::export_models(exports@), m, dll@),
{
    let ghost es = crate::def::export_models(exports@);
    let mut out = head_members(m, dll);
    let ghost head = member_models(out@);
    let mut i: usize = 0;
    while i < exports.len()
        invariant
            i <= exports@.len(),
            es == crate::def::export_models(exports@),
            names_fit(es, dll@),
            head == msvc_head(m, dll@),
            member_models(out@) == head + exports_members(es.take(i as int), m, dll@),
        decreases exports@.len() - i,
    {
        let e = &exports[i];
        assert(es[i as int] == e@);
        let ghost before = member_models(out@);
        make_export_members(e, m, dll, &mut out);
        assert(es.take(i + 1).drop_last() == es.take(i as int));
        assert(exports_members(es.take(i + 1), m, dll@) == exports_members(es.take(i as int), m, dll@)
            + export_members(e@, m, dll@));
        i += 1;
    }
    assert(es.take(i as int) == es);
    out
}

/// The number of exports that are not private.
pub open spec fn public_count(es: Seq<ExportModel>) -> nat
    decreases es.len(),
{
    if es.len() == 0 {
        0
    } else {
        public_count(es.drop_last()) + if es.last().private {
            0nat
        } else {
            1nat
        }
    }
}

/// The number of exports that are not private and have an alias target
/// other than their own name.
pub open spec fn alias_count(es: Seq<ExportModel>) -> nat
    decreases es.len(),
{
    if es.len() == 0 {
        0
    } else {
        alias_count(es.drop_last()) + if !es.last().private && has_alias(es.last()) {
            1nat
        } else {
            0nat
        }
    }
}

/// An MSVC import library has three members, one more per export that is
/// not private, and two more per such export with a distinct alias target.
pub proof fn lemma_msvc_member_count(es: Seq<ExportModel>, m: MachineType, dll: Seq<u8>)
    ensures
        msvc_members(es, m, dll).len() == 3 + public_count(es) + 2 * alias_count(es),
    decreases es.len(),
{
    lemma_exports_member_count(es, m, dll);
}

proof fn lemma_exports_member_count(es: Seq<ExportModel>, m: MachineType, dll: Seq<u8>)
    ensures
        exports_members(es, m, dll).len() == public_count(es) + 2 * alias_count(es),
    decreases es.len(),
{
    if es.len() > 0 {
        lemma_exports_member_count(es.drop_last(), m, dll);
    }
}

/// The short-import member of an export that is not private is its last
/// member; the archive index points `__imp_<name>` at it always, and
/// `<name>` too unless the export is data.
pub proof fn lemma_short_import_symbols(e: ExportModel, m: MachineType, dll: Seq<u8>)
    requires
        !e.private,
    ensures
        ({
            let sym = encode_utf8(sym_of(e));
            let last = export_members(e, m, dll).last();
            &&& last.1 == short_import(m, sym, dll, e.ordinal, name_type_of(e, m), import_type_of(e))
            &&& last.2[0] == imp_prefix() + sym
            &&& last.2.contains(sym) <==> !e.data
        }),
{
    let sym = encode_utf8(sym_of(e));
    let syms = short_import_symbols(sym, import_type_of(e));
    if e.data {
        assert((imp_prefix() + sym).len() != sym.len());
        assert(!syms.contains(sym)) by {
            if syms.contains(sym) {
                let i = choose|i: int| 0 <= i < syms.len() && syms[i] == sym;
                assert(syms[i] == imp_prefix() + sym);
            }
        }
    } else {
        assert(syms[1] == sym);
    }
}

} // verus!

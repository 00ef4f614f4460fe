//! Little-endian PE/COFF records.

use vstd::prelude::*;

verus! {

/// The little-endian encoding of a 16-bit value.
pub open spec fn le16(v: nat) -> Seq<u8> {
    seq![(v % 256) as u8, ((v / 0x100) % 256) as u8]
}

/// The little-endian encoding of a 32-bit value.
pub open spec fn le32(v: nat) -> Seq<u8> {
    seq![
        (v % 256) as u8,
        ((v / 0x100) % 256) as u8,
        ((v / 0x10000) % 256) as u8,
        ((v / 0x1000000) % 256) as u8,
    ]
}

/// `s` followed by NUL bytes up to 8 bytes.
pub open spec fn name8(s: Seq<u8>) -> Seq<u8> {
    s + Seq::new((8 - s.len()) as nat, |i: int| 0u8)
}

/// A symbol name held in the string table at `offset`.
pub open spec fn long_name(offset: nat) -> Seq<u8> {
    le32(0) + le32(offset)
}

/// A COFF file header.
pub open spec fn file_header(
    machine: u16,
    sections: nat,
    symtab: nat,
    symbols: nat,
    characteristics: u16,
) -> Seq<u8> {
    le16(machine as nat) + le16(sections) + le32(0) + le32(symtab) + le32(symbols) + le16(0)
        + le16(characteristics as nat)
}

/// A COFF section header.
pub open spec fn section_header(
    name: Seq<u8>,
    raw_size: nat,
    data_offset: nat,
    reloc_offset: nat,
    relocs: nat,
    characteristics: u32,
) -> Seq<u8> {
    name8(name) + le32(0) + le32(0) + le32(raw_size) + le32(data_offset) + le32(reloc_offset) + le32(0)
        + le16(relocs) + le16(0) + le32(characteristics as nat)
}

/// A COFF relocation record.
pub open spec fn relocation(offset: nat, symbol: nat, kind: u16) -> Seq<u8> {
    le32(offset) + le32(symbol) + le16(kind as nat)
}

/// A COFF symbol record with an 8-byte name field.
pub open spec fn symbol(name: Seq<u8>, section: u16, class: u8, aux: u8) -> Seq<u8> {
    name + le32(0) + le16(section as nat) + le16(0) + seq![class, aux]
}

/// Each name followed by a NUL byte.
pub open spec fn nul_terminated(names: Seq<Seq<u8>>) -> Seq<u8>
    decreases names.len(),
{
    if names.len() == 0 {
        seq![]
    } else {
        nul_terminated(names.drop_last()) + names.last() + seq![0u8]
    }
}

/// A string table: its total size, then the NUL-terminated names.
pub open spec fn string_table(names: Seq<Seq<u8>>) -> Seq<u8> {
    le32(4 + nul_terminated(names).len()) + nul_terminated(names)
}

/// Appends the little-endian encoding of `v`.
pub fn push_le16(out: &mut Vec<u8>, v: u16)
    ensures
        final(out)@ == old(out)@ + le16(v as nat),
{
    out.push((v % 256) as u8);
    out.push((v / 0x100) as u8);
    assert(final(out)@ =~= old(out)@ + le16(v as nat)) by {
        assert((v / 0x100) as nat == ((v as nat / 0x100) % 256));
    }
}

/// Appends the little-endian encoding of `v`.
pub fn push_le32(out: &mut Vec<u8>, v: u32)
    ensures
        final(out)@ == old(out)@ + le32(v as nat),
{
    out.push((v % 256) as u8);
    out.push(((v / 0x100) % 256) as u8);
    out.push(((v / 0x10000) % 256) as u8);
    out.push((v / 0x1000000) as u8);
    assert(final(out)@ =~= old(out)@ + le32(v as nat)) by {
        assert((v / 0x1000000) as nat == ((v as nat / 0x1000000) % 256));
    }
}

/// Appends all of `s`.
pub fn push_bytes(out: &mut Vec<u8>, s: &[u8])
    ensures
        final(out)@ == old(out)@ + s@,
{
    let ghost start = out@;
    let mut i: usize = 0;
    while i < s.len()
        invariant
            i <= s@.len(),
            out@ == start + s@.subrange(0, i as int),
        decreases s@.len() - i,
    {
        out.push(s[i]);
        i += 1;
        assert(out@ =~= start + s@.subrange(0, i as int));
    }
    assert(s@.subrange(0, s@.len() as int) == s@);
}

/// Appends `s` padded with NUL bytes to 8 bytes.
pub fn push_name8(out: &mut Vec<u8>, s: &[u8])
    requires
        s@.len() <= 8,
    ensures
        final(out)@ == old(out)@ + name8(s@),
{
    let ghost start = out@;
    push_bytes(out, s);
    let mut i: usize = s.len();
    while i < 8
        invariant
            s@.len() <= i <= 8,
            out@ == start + s@ + Seq::new((i - s@.len()) as nat, |k: int| 0u8),
        decreases 8 - i,
    {
        out.push(0u8);
        i += 1;
        assert(out@ =~= start + s@ + Seq::new((i - s@.len()) as nat, |k: int| 0u8));
    }
    assert(out@ =~= start + name8(s@));
}

/// Appends a file header.
pub fn push_file_header(
    out: &mut Vec<u8>,
    machine: u16,
    sections: u16,
    symtab: u32,
    symbols: u32,
    characteristics: u16,
)
    ensures
        final(out)@ == old(out)@ + file_header(
            machine,
            sections as nat,
            symtab as nat,
            symbols as nat,
            characteristics,
        ),
{
    let ghost s0 = out@;
    push_le16(out, machine);
    push_le16(out, sections);
    push_le32(out, 0);
    push_le32(out, symtab);
    push_le32(out, symbols);
    push_le16(out, 0);
    push_le16(out, characteristics);
    assert(out@ =~= s0 + file_header(
        machine,
        sections as nat,
        symtab as nat,
        symbols as nat,
        characteristics,
    ));
}

/// Appends a section header.
pub fn push_section_header(
    out: &mut Vec<u8>,
    name: &[u8],
    raw_size: u32,
    data_offset: u32,
    reloc_offset: u32,
    relocs: u16,
    characteristics: u32,
)
    requires
        name@.len() <= 8,
    ensures
        final(out)@ == old(out)@ + section_header(
            name@,
            raw_size as nat,
            data_offset as nat,
            reloc_offset as nat,
            relocs as nat,
            characteristics,
        ),
{
    let ghost s0 = out@;
    push_name8(out, name);
    push_le32(out, 0);
    push_le32(out, 0);
    push_le32(out, raw_size);
    push_le32(out, data_offset);
    push_le32(out, reloc_offset);
    push_le32(out, 0);
    push_le16(out, relocs);
    push_le16(out, 0);
    push_le32(out, characteristics);
    assert(out@ =~= s0 + section_header(
        name@,
        raw_size as nat,
        data_offset as nat,
        reloc_offset as nat,
        relocs as nat,
        characteristics,
    ));
}

/// Appends a relocation record.
pub fn push_relocation(out: &mut Vec<u8>, offset: u32, symbol: u32, kind: u16)
    ensures
        final(out)@ == old(out)@ + relocation(offset as nat, symbol as nat, kind),
{
    let ghost s0 = out@;
    push_le32(out, offset);
    push_le32(out, symbol);
    push_le16(out, kind);
    assert(out@ =~= s0 + relocation(offset as nat, symbol as nat, kind));
}

/// Appends a symbol record whose name is `name`, at most 8 bytes.
pub fn push_short_symbol(out: &mut Vec<u8>, name: &[u8], section: u16, class: u8, aux: u8)
    requires
        name@.len() <= 8,
    ensures
        final(out)@ == old(out)@ + symbol(name8(name@), section, class, aux),
{
    let ghost s0 = out@;
    push_name8(out, name);
    push_le32(out, 0);
    push_le16(out, section);
    push_le16(out, 0);
    out.push(class);
    out.push(aux);
    assert(out@ =~= s0 + symbol(name8(name@), section, class, aux));
}

/// Appends a symbol record whose name is in the string table at `offset`.
pub fn push_long_symbol(out: &mut Vec<u8>, offset: u32, section: u16, class: u8, aux: u8)
    ensures
        final(out)@ == old(out)@ + symbol(long_name(offset as nat), section, class, aux),
{
    let ghost s0 = out@;
    push_le32(out, 0);
    push_le32(out, offset);
    push_le32(out, 0);
    push_le16(out, section);
    push_le16(out, 0);
    out.push(class);
    out.push(aux);
    assert(out@ =~= s0 + symbol(long_name(offset as nat), section, class, aux));
}

/// Whether no byte of `s` is NUL.
pub open spec fn no_nul(s: Seq<u8>) -> bool {
    forall|k: int| 0 <= k < s.len() ==> #[trigger] s[k] != 0u8
}

/// Whether some byte of `s` is NUL.
pub fn has_nul(s: &[u8]) -> (r: bool)
    ensures
        r == !no_nul(s@),
{
    let mut i: usize = 0;
    while i < s.len()
        invariant
            i <= s@.len(),
            forall|k: int| 0 <= k < i ==> #[trigger] s@[k] != 0u8,
        decreases s@.len() - i,
    {
        if s[i] == 0u8 {
            return true;
        }
        i += 1;
    }
    false
}

} // verus!

//! Members of a GNU-flavored (MinGW) import library: one jump-stub object
//! per export, framed by a head and a tail object. The objects are written
//! with the `object` crate.

use vstd::prelude::*;

use object::write::Error as WriteError;
use object::write::{Object, Relocation, SectionId, Symbol, SymbolId, SymbolSection};

use crate::ar::{radix_digits, views};
use crate::msvc::imp_prefix;
use vstd::utf8::encode_utf8;

use crate::def::ShortExport;
use crate::{ArchiveMember, MachineType, MemberModel};
use crate::def::ExportModel;

verus! {

#[verifier::external_type_specification]
#[verifier::external_body]
pub struct ExObject<'a>(Object<'a>);

#[verifier::external_type_specification]
#[verifier::external_body]
pub struct ExSectionId(SectionId);

#[verifier::external_type_specification]
#[verifier::external_body]
pub struct ExSymbolId(SymbolId);

#[verifier::external_type_specification]
#[verifier::external_body]
pub struct ExWriteError(WriteError);

/// A relocation as an object stores it.
pub struct RelocModel {
    pub offset: u64,
    pub symbol: nat,
    pub typ: u16,
}

/// A section as an object stores it: name, kind, COFF characteristics (when
/// set), alignment, data, relocations, and its section symbol (once made).
pub struct SectionModel {
    pub name: Seq<u8>,
    pub class: SectionClass,
    pub characteristics: Option<u32>,
    pub align: nat,
    pub data: Seq<u8>,
    pub relocs: Seq<RelocModel>,
    pub symbol: Option<nat>,
}

/// What a symbol stands for.
pub enum SymbolRole {
    /// A file symbol.
    File,
    /// The symbol of the section at this position.
    SectionOf(nat),
    /// A global data symbol, defined in the section at this position or
    /// undefined.
    Global(Option<nat>),
}

/// A symbol as an object stores it.
pub struct SymbolModel {
    pub name: Seq<u8>,
    pub role: SymbolRole,
}

/// The contents of a little-endian COFF object.
pub struct ObjectModel {
    pub machine: MachineType,
    pub sections: Seq<SectionModel>,
    pub symbols: Seq<SymbolModel>,
    /// Whether names of symbols added from now on are stored as given.
    pub unmangled: bool,
}

/// Whether no section or symbol name of an object holds a NUL byte (the
/// writer's string table refuses such names).
pub open spec fn names_clean(o: ObjectModel) -> bool {
    &&& forall|i: int| 0 <= i < o.sections.len() ==> crate::coff::no_nul(#[trigger] o.sections[i].name)
    &&& forall|j: int| 0 <= j < o.symbols.len() ==> crate::coff::no_nul(#[trigger] o.symbols[j].name)
}

/// The contents of an object, when it holds only what the operations below
/// put there.
pub uninterp spec fn object_model(o: Object<'static>) -> Option<ObjectModel>;

/// The bytes that the COFF writer produces for an object with these
/// contents.
pub uninterp spec fn coff_bytes(m: ObjectModel) -> Seq<u8>;

/// The position that a section id stands for.
pub uninterp spec fn section_slot(id: SectionId) -> nat;

/// The position that a symbol id stands for.
pub uninterp spec fn symbol_slot(id: SymbolId) -> nat;

/// An object with no section and no symbol.
pub open spec fn empty_object(m: MachineType) -> ObjectModel {
    ObjectModel { machine: m, sections: seq![], symbols: seq![], unmangled: false }
}

/// A new section, empty, without characteristics.
pub open spec fn op_add_section(o: ObjectModel, name: Seq<u8>, class: SectionClass) -> ObjectModel {
    ObjectModel {
        sections: o.sections.push(
            SectionModel {
                name,
                class,
                characteristics: None,
                align: 1,
                data: seq![],
                relocs: seq![],
                symbol: None,
            },
        ),
        ..o
    }
}

/// Section `s` with characteristics `c`.
pub open spec fn op_set_flags(o: ObjectModel, s: nat, c: u32) -> ObjectModel {
    ObjectModel {
        sections: o.sections.update(s as int, SectionModel { characteristics: Some(c), ..o.sections[s as int] }),
        ..o
    }
}

/// A new file symbol.
pub open spec fn op_file_symbol(o: ObjectModel, name: Seq<u8>) -> ObjectModel {
    ObjectModel { symbols: o.symbols.push(SymbolModel { name, role: SymbolRole::File }), ..o }
}

/// The name under which a global symbol called `name` is stored: COFF
/// objects for I386 prefix `_` until mangling is turned off.
pub open spec fn stored_name(o: ObjectModel, name: Seq<u8>) -> Seq<u8> {
    if o.machine == MachineType::I386 && !o.unmangled && name.len() > 0 {
        seq![95u8] + name
    } else {
        name
    }
}

/// A new global data symbol.
pub open spec fn op_data_symbol(o: ObjectModel, name: Seq<u8>, section: Option<nat>) -> ObjectModel {
    ObjectModel {
        symbols: o.symbols.push(SymbolModel { name: stored_name(o, name), role: SymbolRole::Global(section) }),
        ..o
    }
}

/// Mangling turned off.
pub open spec fn op_unmangle(o: ObjectModel) -> ObjectModel {
    ObjectModel { unmangled: true, ..o }
}

/// The symbol of section `s`, made the first time it is asked for.
pub open spec fn op_section_symbol(o: ObjectModel, s: nat) -> (ObjectModel, nat) {
    match o.sections[s as int].symbol {
        Some(i) => (o, i),
        None => {
            let i = o.symbols.len();
            (
                ObjectModel {
                    symbols: o.symbols.push(
                        SymbolModel { name: o.sections[s as int].name, role: SymbolRole::SectionOf(s) },
                    ),
                    sections: o.sections.update(s as int, SectionModel { symbol: Some(i), ..o.sections[s as int] }),
                    ..o
                },
                i,
            )
        },
    }
}

/// A relocation added to section `s`.
pub open spec fn op_relocation(o: ObjectModel, s: nat, offset: u64, symbol: nat, typ: u16) -> ObjectModel {
    let sec = o.sections[s as int];
    ObjectModel {
        sections: o.sections.update(
            s as int,
            SectionModel { relocs: sec.relocs.push(RelocModel { offset, symbol, typ }), ..sec },
        ),
        ..o
    }
}

/// `data` padded with zeros to a multiple of `align`, then `bytes`.
pub open spec fn append_aligned(data: Seq<u8>, bytes: Seq<u8>, align: nat) -> Seq<u8> {
    let pad: nat = if align == 0 || data.len() % align == 0 {
        0
    } else {
        (align - data.len() % align) as nat
    };
    data + Seq::new(pad, |i: int| 0u8) + bytes
}

/// `bytes` appended to section `s` at alignment `align`.
pub open spec fn op_append(o: ObjectModel, s: nat, bytes: Seq<u8>, align: nat) -> ObjectModel {
    let sec = o.sections[s as int];
    ObjectModel {
        sections: o.sections.update(
            s as int,
            SectionModel {
                data: append_aligned(sec.data, bytes, align),
                align: if sec.align < align {
                    align
                } else {
                    sec.align
                },
                ..sec
            },
        ),
        ..o
    }
}

/// What the COFF writer adds to the addend of a relocation of type `typ`
/// before storing it in the section data.
pub open spec fn coff_adjust(m: MachineType, typ: u16) -> int {
    match m {
        MachineType::AMD64 => if 4 <= typ <= 9 {
            typ as int
        } else {
            0
        },
        MachineType::I386 => if typ == 0x14 {
            4
        } else {
            0
        },
        MachineType::ARMNT => if typ == 0x0a {
            4
        } else {
            0
        },
        MachineType::ARM64 => if typ == 0x11 {
            4
        } else {
            0
        },
    }
}

/// The kinds of section this library creates.
#[derive(Debug, Clone, Copy, PartialEq, Eq, Structural)]
pub enum SectionClass {
    Text,
    Data,
    Uninitialized,
}

/// Relies on `Object::new`: an empty little-endian COFF object for the
/// machine's architecture, with the default mangling.
#[verifier::external_body]
fn new_coff_object(m: MachineType) -> (r: Object<'static>)
    ensures
        object_model(r) == Some(empty_object(m)),
{
    let arch = match m {
        MachineType::AMD64 => object::Architecture::X86_64,
        MachineType::ARMNT => object::Architecture::Arm,
        MachineType::ARM64 => object::Architecture::Aarch64,
        MachineType::I386 => object::Architecture::I386,
    };
    Object::new(object::BinaryFormat::Coff, arch, object::Endianness::Little)
}

/// Relies on `Object::add_section`: appends an empty section with alignment
/// 1 and no flags, whose id stands for the next position.
#[verifier::external_body]
fn add_section(o: &mut Object<'static>, name: Vec<u8>, class: SectionClass) -> (r: SectionId)
    requires
        object_model(*old(o)) is Some,
    ensures
        section_slot(r) == object_model(*old(o))->0.sections.len(),
        object_model(*final(o)) == Some(op_add_section(object_model(*old(o))->0, name@, class)),
{
    let kind = match class {
        SectionClass::Text => object::SectionKind::Text,
        SectionClass::Data => object::SectionKind::Data,
        SectionClass::Uninitialized => object::SectionKind::UninitializedData,
    };
    o.add_section(Vec::new(), name, kind)
}

/// Relies on `Object::section_mut`: sets the COFF characteristics of a
/// section; it panics on an id of another object.
#[verifier::external_body]
fn set_characteristics(o: &mut Object<'static>, id: SectionId, characteristics: u32)
    requires
        object_model(*old(o)) is Some,
        section_slot(id) < object_model(*old(o))->0.sections.len(),
    ensures
        object_model(*final(o)) == Some(
            op_set_flags(object_model(*old(o))->0, section_slot(id), characteristics),
        ),
{
    o.section_mut(id).flags = object::SectionFlags::Coff { characteristics };
}

/// Relies on `Object::add_file_symbol`: appends a file symbol.
#[verifier::external_body]
fn add_file_symbol(o: &mut Object<'static>, name: Vec<u8>)
    requires
        object_model(*old(o)) is Some,
    ensures
        object_model(*final(o)) == Some(op_file_symbol(object_model(*old(o))->0, name@)),
{
    o.add_file_symbol(name);
}

/// Relies on `Object::section_symbol`: the symbol of a section, named as
/// the section, added the first time it is asked for; it panics on an id of
/// another object.
#[verifier::external_body]
fn section_symbol(o: &mut Object<'static>, id: SectionId) -> (r: SymbolId)
    requires
        object_model(*old(o)) is Some,
        section_slot(id) < object_model(*old(o))->0.sections.len(),
    ensures
        object_model(*final(o)) == Some(op_section_symbol(object_model(*old(o))->0, section_slot(id)).0),
        symbol_slot(r) == op_section_symbol(object_model(*old(o))->0, section_slot(id)).1,
{
    o.section_symbol(id)
}

/// Relies on `Object::add_symbol`: appends a global data symbol named
/// `name` (with the object's mangling applied), defined in `section` or
/// undefined.
#[verifier::external_body]
fn add_data_symbol(o: &mut Object<'static>, name: Vec<u8>, section: Option<SectionId>) -> (r: SymbolId)
    requires
        object_model(*old(o)) is Some,
        section matches Some(id) ==> section_slot(id) < object_model(*old(o))->0.sections.len(),
    ensures
        symbol_slot(r) == object_model(*old(o))->0.symbols.len(),
        object_model(*final(o)) == Some(
            op_data_symbol(
                object_model(*old(o))->0,
                name@,
                match section {
                    Some(id) => Some(section_slot(id)),
                    None => None,
                },
            ),
        ),
{
    let section = match section {
        Some(id) => SymbolSection::Section(id),
        None => SymbolSection::Undefined,
    };
    o.add_symbol(Symbol {
        name,
        value: 0,
        size: 0,
        kind: object::SymbolKind::Data,
        scope: object::SymbolScope::Dynamic,
        weak: false,
        section,
        flags: object::SymbolFlags::None,
    })
}

/// Relies on the `Object::mangling` field: symbols added afterwards keep
/// their names as given.
#[verifier::external_body]
fn disable_mangling(o: &mut Object<'static>)
    requires
        object_model(*old(o)) is Some,
    ensures
        object_model(*final(o)) == Some(op_unmangle(object_model(*old(o))->0)),
{
    o.mangling = object::write::Mangling::None;
}

/// Relies on `Object::symbol`: the name a symbol was stored under.
#[verifier::external_body]
fn symbol_name(o: &Object<'static>, id: SymbolId) -> (r: Vec<u8>)
    requires
        object_model(*o) is Some,
        symbol_slot(id) < object_model(*o)->0.symbols.len(),
    ensures
        r@ == object_model(*o)->0.symbols[symbol_slot(id) as int].name,
{
    o.symbol(id).name.clone()
}

/// Relies on `Object::add_relocation`: records a COFF relocation of type
/// `typ` at `offset` in `section` against `symbol`. The writer adds
/// `coff_adjust` to `addend`; when the sum is zero nothing is written into
/// the section data and the call succeeds.
#[verifier::external_body]
fn add_relocation(o: &mut Object<'static>, section: SectionId, offset: u64, symbol: SymbolId, typ: u16, addend: i64) -> (r: Result<(), WriteError>)
    requires
        object_model(*old(o)) is Some,
        section_slot(section) < object_model(*old(o))->0.sections.len(),
        object_model(*old(o))->0.sections[section_slot(section) as int].class != SectionClass::Uninitialized,
        symbol_slot(symbol) < object_model(*old(o))->0.symbols.len(),
        addend + coff_adjust(object_model(*old(o))->0.machine, typ) == 0,
    ensures
        r is Ok,
        object_model(*final(o)) == Some(
            op_relocation(object_model(*old(o))->0, section_slot(section), offset, symbol_slot(symbol), typ),
        ),
{
    let flags = object::RelocationFlags::Coff { typ };
    o.add_relocation(section, Relocation { offset, symbol, addend, flags })
}

/// Relies on `Object::append_section_data`: appends `data` to a section that
/// does not hold uninitialized data, after zero padding to `align`.
#[verifier::external_body]
fn append_section_data(o: &mut Object<'static>, section: SectionId, data: &[u8], align: u64)
    requires
        object_model(*old(o)) is Some,
        section_slot(section) < object_model(*old(o))->0.sections.len(),
        object_model(*old(o))->0.sections[section_slot(section) as int].class != SectionClass::Uninitialized,
        align == 2 || align == 4,
    ensures
        object_model(*final(o)) == Some(
            op_append(object_model(*old(o))->0, section_slot(section), data@, align as nat),
        ),
{
    o.append_section_data(section, data, align);
}

/// Relies on `Object::write`: the bytes of the object file. The writer
/// fails only on comdats, section kinds, alignments, symbol scopes and
/// relocation flags that the operations above never produce, and panics on
/// a name holding a NUL byte, which `requires` leaves out.
#[verifier::external_body]
fn write_object(o: &Object<'static>) -> (r: Result<Vec<u8>, WriteError>)
    requires
        object_model(*o) is Some,
        names_clean(object_model(*o)->0),
    ensures
        r is Ok,
        r->Ok_0@ == coff_bytes(object_model(*o)->0),
{
    o.write()
}

/// The bytes of `.text`.
fn text_name() -> (r: Vec<u8>)
    ensures
        r@ == seq![46u8, 116u8, 101u8, 120u8, 116u8],
{
    let r: Vec<u8> = vec![46u8, 116u8, 101u8, 120u8, 116u8];
    assert(r@ =~= seq![46u8, 116u8, 101u8, 120u8, 116u8]);
    r
}

/// The bytes of `.data`.
fn data_name() -> (r: Vec<u8>)
    ensures
        r@ == seq![46u8, 100u8, 97u8, 116u8, 97u8],
{
    let r: Vec<u8> = vec![46u8, 100u8, 97u8, 116u8, 97u8];
    assert(r@ =~= seq![46u8, 100u8, 97u8, 116u8, 97u8]);
    r
}

/// The bytes of `.bss`.
fn bss_name() -> (r: Vec<u8>)
    ensures
        r@ == seq![46u8, 98u8, 115u8, 115u8],
{
    let r: Vec<u8> = vec![46u8, 98u8, 115u8, 115u8];
    assert(r@ =~= seq![46u8, 98u8, 115u8, 115u8]);
    r
}

/// The bytes of `_head_`.
fn head_prefix() -> (r: Vec<u8>)
    ensures
        r@ == seq![95u8, 104u8, 101u8, 97u8, 100u8, 95u8],
{
    let r: Vec<u8> = vec![95u8, 104u8, 101u8, 97u8, 100u8, 95u8];
    assert(r@ =~= seq![95u8, 104u8, 101u8, 97u8, 100u8, 95u8]);
    r
}

/// The bytes of `_iname`.
fn iname_suffix() -> (r: Vec<u8>)
    ensures
        r@ == seq![95u8, 105u8, 110u8, 97u8, 109u8, 101u8],
{
    let r: Vec<u8> = vec![95u8, 105u8, 110u8, 97u8, 109u8, 101u8];
    assert(r@ =~= seq![95u8, 105u8, 110u8, 97u8, 109u8, 101u8]);
    r
}

/// The bytes of `fake`.
fn fake_name() -> (r: Vec<u8>)
    ensures
        r@ == seq![102u8, 97u8, 107u8, 101u8],
{
    let r: Vec<u8> = vec![102u8, 97u8, 107u8, 101u8];
    assert(r@ =~= seq![102u8, 97u8, 107u8, 101u8]);
    r
}

/// The DLL name with each `.` replaced by `_`.
pub open spec fn dll_mangled(dll: Seq<u8>) -> Seq<u8> {
    Seq::new(dll.len(), |i: int| if dll[i] == 46u8 { 95u8 } else { dll[i] })
}

/// `s` padded on the left with `0` to `w` characters.
pub open spec fn zero_padded(s: Seq<u8>, w: nat) -> Seq<u8> {
    if s.len() >= w {
        s
    } else {
        Seq::new((w - s.len()) as nat, |i: int| 48u8) + s
    }
}

/// The identifier of the stub of the `seq`-th export: `<dll>_s<NNNNN>.o`.
pub open spec fn stub_name(dll: Seq<u8>, seq: nat) -> Seq<u8> {
    stub_name_from(dll_mangled(dll), seq)
}

/// The identifier of the head member: `<dll>_h.o`.
pub open spec fn head_name(dll: Seq<u8>) -> Seq<u8> {
    dll_mangled(dll) + seq![95u8, 104u8, 46u8, 111u8]
}

/// The identifier of the tail member: `<dll>_t.o`.
pub open spec fn tail_name(dll: Seq<u8>) -> Seq<u8> {
    dll_mangled(dll) + seq![95u8, 116u8, 46u8, 111u8]
}

/// The archive symbols of a stub: the export's name unless it is data, then
/// `__imp_<name>`.
pub open spec fn stub_symbols(name: Seq<u8>, data: bool) -> Seq<Seq<u8>> {
    if data {
        seq![imp_prefix() + name]
    } else {
        seq![name, imp_prefix() + name]
    }
}

/// The jump instruction of a stub.
pub open spec fn jump_template(m: MachineType) -> Seq<u8> {
    if m == MachineType::I386 || m == MachineType::AMD64 {
        seq![0xffu8, 0x25u8, 0u8, 0u8, 0u8, 0u8, 0x90u8, 0x90u8]
    } else {
        seq![0x00u8, 0xc0u8, 0x9fu8, 0xe5u8, 0x00u8, 0xf0u8, 0x9cu8, 0xe5u8, 0u8, 0u8, 0u8, 0u8]
    }
}

/// Where in the jump instruction the address of `__imp_<name>` goes.
pub open spec fn jump_offset(m: MachineType) -> nat {
    if m == MachineType::I386 || m == MachineType::AMD64 {
        2
    } else {
        8
    }
}

/// The addend of the jump's relocation: the writer stores it plus the
/// 4-byte field size, so the instruction keeps its zero displacement.
fn jump_addend() -> (r: i64)
    ensures
        r == -4,
{
    -4
}

/// An import-by-ordinal entry of the lookup and address tables.
pub open spec fn ordinal_entry(ordinal: u16) -> Seq<u8> {
    seq![(ordinal % 256) as u8, (ordinal / 256) as u8, 0u8, 0u8, 0u8, 0u8, 0u8, 0x80u8]
}

/// A hint/name entry: the ordinal as a hint, then the name (without the
/// leading `_` that `I386` names carry) and a NUL.
pub open spec fn hint_name(m: MachineType, ordinal: u16, name: Seq<u8>) -> Seq<u8> {
    let n = if m == MachineType::I386 && name.len() > 0 && name[0] == 95u8 {
        name.drop_first()
    } else {
        name
    };
    crate::coff::le16(ordinal as nat) + n + seq![0u8]
}

/// The DLL name with each `.` replaced by `_`.
fn mangle(dll: &[u8]) -> (r: Vec<u8>)
    ensures
        r@ == dll_mangled(dll@),
{
    let mut r: Vec<u8> = Vec::new();
    let mut i: usize = 0;
    while i < dll.len()
        invariant
            i <= dll@.len(),
            r@ =~= dll_mangled(dll@).subrange(0, i as int),
        decreases dll@.len() - i,
    {
        if dll[i] == 46u8 {
            r.push(95u8);
        } else {
            r.push(dll[i]);
        }
        i += 1;
    }
    r
}

/// `a` followed by `b`.
fn join(a: &[u8], b: &[u8]) -> (r: Vec<u8>)
    ensures
        r@ == a@ + b@,
{
    let mut r: Vec<u8> = Vec::new();
    crate::coff::push_bytes(&mut r, a);
    crate::coff::push_bytes(&mut r, b);
    assert(r@ =~= a@ + b@);
    r
}

/// The identifier of the stub of the `seq`-th export.
fn make_stub_name(mangled: &[u8], seq: usize) -> (r: Vec<u8>)
    ensures
        r@ == stub_name_from(mangled@, seq as nat),
{
    let mut digits: Vec<u8> = Vec::new();
    crate::ar::push_radix(&mut digits, seq as u64, 10);
    let mut r: Vec<u8> = Vec::new();
    crate::coff::push_bytes(&mut r, mangled);
    r.push(95u8);
    r.push(115u8);
    let mut k: usize = digits.len();
    while k < 5
        invariant
            digits@.len() <= k <= 5 || k == digits@.len(),
            r@ == mangled@ + seq![95u8, 115u8] + Seq::new((k - digits@.len()) as nat, |i: int| 48u8),
        decreases 5 - k,
    {
        r.push(48u8);
        k += 1;
        assert(r@ =~= mangled@ + seq![95u8, 115u8] + Seq::new((k - digits@.len()) as nat, |i: int| 48u8));
    }
    let ghost pad = Seq::new((k - digits@.len()) as nat, |i: int| 48u8);
    crate::coff::push_bytes(&mut r, digits.as_slice());
    r.push(46u8);
    r.push(111u8);
    assert(zero_padded(digits@, 5) =~= pad + digits@);
    assert(r@ =~= stub_name_from(mangled@, seq as nat));
    r
}

/// The identifier of the `seq`-th stub, given the mangled DLL name.
pub open spec fn stub_name_from(mangled: Seq<u8>, seq: nat) -> Seq<u8> {
    mangled + seq![95u8, 115u8] + zero_padded(radix_digits(seq, 10), 5) + seq![46u8, 111u8]
}

/// The jump instruction, the offset of its address, and its relocation type.
fn jump_stub(m: MachineType) -> (r: (Vec<u8>, u64, u16))
    ensures
        r.0@ == jump_template(m),
        r.1 == jump_offset(m),
        r.2 == crate::rel32_type(m),
{
    let rel = m.rel32_relocation();
    if m == MachineType::I386 || m == MachineType::AMD64 {
        let v: Vec<u8> = vec![0xffu8, 0x25u8, 0u8, 0u8, 0u8, 0u8, 0x90u8, 0x90u8];
        assert(v@ =~= jump_template(m));
        (v, 2, rel)
    } else {
        let v: Vec<u8> = vec![0x00u8, 0xc0u8, 0x9fu8, 0xe5u8, 0x00u8, 0xf0u8, 0x9cu8, 0xe5u8, 0u8, 0u8, 0u8, 0u8];
        assert(v@ =~= jump_template(m));
        (v, 8, rel)
    }
}

/// An import-by-ordinal table entry.
fn make_ordinal_entry(ordinal: u16) -> (r: Vec<u8>)
    ensures
        r@ == ordinal_entry(ordinal),
{
    let v: Vec<u8> = vec![(ordinal % 256) as u8, (ordinal / 256) as u8, 0u8, 0u8, 0u8, 0u8, 0u8, 0x80u8];
    assert(v@ =~= ordinal_entry(ordinal));
    v
}

/// A hint/name entry.
fn make_hint_name(m: MachineType, ordinal: u16, name: &[u8]) -> (r: Vec<u8>)
    ensures
        r@ == hint_name(m, ordinal, name@),
{
    let mut v: Vec<u8> = Vec::new();
    crate::coff::push_le16(&mut v, ordinal);
    let start: usize = if m == MachineType::I386 && name.len() > 0 && name[0] == 95u8 {
        1
    } else {
        0
    };
    let mut i: usize = start;
    let ghost v0 = v@;
    while i < name.len()
        invariant
            start <= i <= name@.len(),
            v@ == v0 + name@.subrange(start as int, i as int),
        decreases name@.len() - i,
    {
        v.push(name[i]);
        i += 1;
        assert(v@ =~= v0 + name@.subrange(start as int, i as int));
    }
    v.push(0u8);
    assert(v@ =~= hint_name(m, ordinal, name@));
    v
}

/// The bytes of `.idata$<d>` for the ASCII digit `d`.
pub open spec fn idata(d: u8) -> Seq<u8> {
    seq![46u8, 105u8, 100u8, 97u8, 116u8, 97u8, 36u8, d]
}

/// `n` zero bytes.
pub open spec fn zero_bytes(n: nat) -> Seq<u8> {
    Seq::new(n, |i: int| 0u8)
}

/// The name a global symbol gets in a COFF object while mangling is on.
pub open spec fn global_name(m: MachineType, name: Seq<u8>) -> Seq<u8> {
    if m == MachineType::I386 && name.len() > 0 {
        seq![95u8] + name
    } else {
        name
    }
}

/// `_head_<mg>`.
pub open spec fn head_symbol(mg: Seq<u8>) -> Seq<u8> {
    seq![95u8, 104u8, 101u8, 97u8, 100u8, 95u8] + mg
}

/// `<mg>_iname`.
pub open spec fn iname_symbol(mg: Seq<u8>) -> Seq<u8> {
    mg + seq![95u8, 105u8, 110u8, 97u8, 109u8, 101u8]
}

/// `.text`, `.data` and `.bss`, at positions 0, 1 and 2, with the given
/// alignment bits.
pub open spec fn standard_sections(m: MachineType, align: u32) -> ObjectModel {
    let o1 = op_set_flags(op_add_section(empty_object(m), seq![46u8, 116u8, 101u8, 120u8, 116u8], SectionClass::Text), 0, align | 0x6000_0020);
    let o2 = op_set_flags(op_add_section(o1, seq![46u8, 100u8, 97u8, 116u8, 97u8], SectionClass::Data), 1, align | 0xc000_0040);
    op_set_flags(op_add_section(o2, seq![46u8, 98u8, 115u8, 115u8], SectionClass::Uninitialized), 2, align | 0xc000_0080)
}

/// The head object for the mangled DLL name `mg`: `.idata$2` (position 3)
/// holds 20 zero bytes with image-relative relocations at 0, 16 and 12
/// against the symbols of `.idata$4` (5), `.idata$5` (4) and the undefined
/// `<mg>_iname`; `_head_<mg>` is defined in `.idata$2`.
pub open spec fn head_model(m: MachineType, mg: Seq<u8>) -> ObjectModel {
    let ir = crate::img_rel_type(m);
    let o1 = op_add_section(standard_sections(m, 0x0050_0000), idata(50), SectionClass::Data);
    let o2 = op_set_flags(op_add_section(o1, idata(53), SectionClass::Data), 4, 0xc030_0040);
    let o3 = op_set_flags(op_add_section(o2, idata(52), SectionClass::Data), 5, 0xc030_0040);
    let o4 = op_file_symbol(o3, seq![102u8, 97u8, 107u8, 101u8]);
    let (o5, id5s) = op_section_symbol(o4, 4);
    let (o6, id4s) = op_section_symbol(o5, 5);
    let o7 = op_relocation(op_relocation(o6, 3, 0, id4s, ir), 3, 16, id5s, ir);
    let o8 = op_data_symbol(o7, head_symbol(mg), Some(3));
    let iname = o8.symbols.len();
    let o9 = op_data_symbol(o8, iname_symbol(mg), None);
    op_relocation(op_append(o9, 3, zero_bytes(20), 4), 3, 12, iname, ir)
}

/// The tail object: `.idata$4` (3) and `.idata$5` (4) hold 8 zero bytes
/// each, `.idata$7` (5) holds the DLL name and a NUL, and `<mg>_iname` is
/// defined in `.idata$7`.
pub open spec fn tail_model(m: MachineType, mg: Seq<u8>, dll: Seq<u8>) -> ObjectModel {
    let o1 = op_set_flags(op_add_section(standard_sections(m, 0x0050_0000), idata(52), SectionClass::Data), 3, 0xc030_0040);
    let o2 = op_set_flags(op_add_section(o1, idata(53), SectionClass::Data), 4, 0xc030_0040);
    let o3 = op_add_section(o2, idata(55), SectionClass::Data);
    let o4 = op_file_symbol(o3, seq![102u8, 97u8, 107u8, 101u8]);
    let o5 = op_data_symbol(o4, iname_symbol(mg), Some(5));
    op_append(op_append(op_append(o5, 3, zero_bytes(8), 4), 4, zero_bytes(8), 4), 5, dll + seq![0u8], 4)
}

/// The stub object of the export `name`: sections `.text` (0), `.data`,
/// `.bss`, `.idata$7` (3), `.idata$5` (4), `.idata$4` (5), `.idata$6` (6);
/// the undefined `_head_<mg>`, then (unless data) `name` in `.text`, then
/// `__imp_<name>` in `.idata$5`. Unless data, `.text` holds the jump with
/// one relocation against `__imp_<name>`. `.idata$7` points at the head.
/// With `no_name`, `.idata$5` and `.idata$4` hold the ordinal entry; else
/// they point at `.idata$6`, which holds the hint/name entry.
pub open spec fn stub_model(
    m: MachineType,
    mg: Seq<u8>,
    name: Seq<u8>,
    data: bool,
    no_name: bool,
    ordinal: u16,
) -> ObjectModel {
    let ir = crate::img_rel_type(m);
    let o0 = standard_sections(m, 0x0030_0000);
    let o1 = op_set_flags(op_add_section(o0, idata(55), SectionClass::Data), 3, 0xc030_0000);
    let o2 = op_set_flags(op_add_section(o1, idata(53), SectionClass::Data), 4, 0xc030_0000);
    let o3 = op_set_flags(op_add_section(o2, idata(52), SectionClass::Data), 5, 0xc030_0000);
    let o4 = op_set_flags(op_add_section(o3, idata(54), SectionClass::Data), 6, 0xc020_0000);
    let head = o4.symbols.len();
    let o5 = op_unmangle(op_data_symbol(o4, head_symbol(mg), None));
    let o6 = if data {
        o5
    } else {
        op_data_symbol(o5, name, Some(0))
    };
    let imp = o6.symbols.len();
    let o7 = op_data_symbol(o6, imp_prefix() + name, Some(4));
    let o8 = if data {
        o7
    } else {
        op_relocation(op_append(o7, 0, jump_template(m), 4), 0, jump_offset(m) as u64, imp, crate::rel32_type(m))
    };
    let o9 = op_relocation(op_append(o8, 3, zero_bytes(4), 4), 3, 0, head, ir);
    let (o10, id6s) = op_section_symbol(o9, 6);
    if no_name {
        op_append(op_append(o10, 4, ordinal_entry(ordinal), 4), 5, ordinal_entry(ordinal), 4)
    } else {
        let o11 = op_append(op_relocation(o10, 4, 0, id6s, ir), 4, zero_bytes(8), 4);
        let o12 = op_append(op_relocation(o11, 5, 0, id6s, ir), 5, zero_bytes(8), 4);
        op_append(o12, 6, hint_name(m, ordinal, name), 2)
    }
}

/// The members of a GNU import library of `es` from `dll`: the head, one
/// stub per export in order, the tail.
pub open spec fn gnu_members(es: Seq<ExportModel>, m: MachineType, dll: Seq<u8>) -> Seq<MemberModel> {
    let mg = dll_mangled(dll);
    seq![(head_name(dll), coff_bytes(head_model(m, mg)), seq![global_name(m, head_symbol(mg))])]
        + Seq::new(es.len(), |i: int| stub_member(es[i], m, dll, i as nat))
        + seq![(tail_name(dll), coff_bytes(tail_model(m, mg, dll)), seq![global_name(m, iname_symbol(mg))])]
}

/// The stub member of the `i`-th export `e`.
pub open spec fn stub_member(e: ExportModel, m: MachineType, dll: Seq<u8>, i: nat) -> MemberModel {
    let name = encode_utf8(e.name);
    (
        stub_name(dll, i),
        coff_bytes(stub_model(m, dll_mangled(dll), name, e.data, e.no_name, e.ordinal)),
        stub_symbols(name, e.data),
    )
}

/// Adds `.text`, `.data` and `.bss` with the given alignment bits.
fn add_standard_sections(o: &mut Object<'static>, m: MachineType, align: u32) -> (r: SectionId)
    requires
        object_model(*old(o)) == Some(empty_object(m)),
    ensures
        section_slot(r) == 0,
        object_model(*final(o)) == Some(standard_sections(m, align)),
{
    let text = add_section(o, text_name(), SectionClass::Text);
    set_characteristics(o, text, align | 0x6000_0020);
    let data = add_section(o, data_name(), SectionClass::Data);
    set_characteristics(o, data, align | 0xc000_0040);
    let bss = add_section(o, bss_name(), SectionClass::Uninitialized);
    set_characteristics(o, bss, align | 0xc000_0080);
    text
}

/// Appends `n` zero bytes' worth of a fixed-size array as a section's data.
fn zero_vec(n: usize) -> (r: Vec<u8>)
    ensures
        r@ == zero_bytes(n as nat),
{
    let mut v: Vec<u8> = Vec::new();
    let mut i: usize = 0;
    while i < n
        invariant
            i <= n,
            v@ == zero_bytes(i as nat),
        decreases n - i,
    {
        v.push(0u8);
        i += 1;
        assert(v@ =~= zero_bytes(i as nat));
    }
    v
}

/// The head member, which starts the import directory entry of the DLL.
fn make_head(m: MachineType, mangled: &[u8]) -> (r: ArchiveMember)
    requires
        crate::coff::no_nul(mangled@),
    ensures
        r@ == (
            mangled@ + seq![95u8, 104u8, 46u8, 111u8],
            coff_bytes(head_model(m, mangled@)),
            seq![global_name(m, head_symbol(mangled@))],
        ),
{
    let mut obj = new_coff_object(m);
    add_standard_sections(&mut obj, m, 0x0050_0000);
    let id2 = add_section(&mut obj, crate::msvc::idata_name(50u8), SectionClass::Data);
    let id5 = add_section(&mut obj, crate::msvc::idata_name(53u8), SectionClass::Data);
    set_characteristics(&mut obj, id5, 0xc030_0040);
    let id4 = add_section(&mut obj, crate::msvc::idata_name(52u8), SectionClass::Data);
    set_characteristics(&mut obj, id4, 0xc030_0040);
    add_file_symbol(&mut obj, fake_name());
    let id5_sym = section_symbol(&mut obj, id5);
    let id4_sym = section_symbol(&mut obj, id4);
    let img_rel = m.img_rel_relocation();
    let _ = add_relocation(&mut obj, id2, 0, id4_sym, img_rel, 0);
    let _ = add_relocation(&mut obj, id2, 16, id5_sym, img_rel, 0);
    let head = add_data_symbol(&mut obj, join(head_prefix().as_slice(), mangled), Some(id2));
    let head_sym_name = symbol_name(&obj, head);
    let iname = add_data_symbol(&mut obj, join(mangled, iname_suffix().as_slice()), None);
    let zeros = zero_vec(20);
    append_section_data(&mut obj, id2, zeros.as_slice(), 4);
    let _ = add_relocation(&mut obj, id2, 12, iname, img_rel, 0);
    let data = write_object(&obj).unwrap();
    let suffix: Vec<u8> = vec![95u8, 104u8, 46u8, 111u8];
    assert(suffix@ =~= seq![95u8, 104u8, 46u8, 111u8]);
    let mut symbols: Vec<Vec<u8>> = Vec::new();
    symbols.push(head_sym_name);
    let r = ArchiveMember { name: join(mangled, suffix.as_slice()), data, symbols };
    assert(views(r.symbols@) =~= seq![global_name(m, head_symbol(mangled@))]);
    r
}

/// The tail member, which ends the lookup and address tables and holds the
/// DLL name.
fn make_tail(m: MachineType, mangled: &[u8], dll: &[u8]) -> (r: ArchiveMember)
    requires
        crate::coff::no_nul(mangled@),
    ensures
        r@ == (
            mangled@ + seq![95u8, 116u8, 46u8, 111u8],
            coff_bytes(tail_model(m, mangled@, dll@)),
            seq![global_name(m, iname_symbol(mangled@))],
        ),
{
    let mut obj = new_coff_object(m);
    add_standard_sections(&mut obj, m, 0x0050_0000);
    let id4 = add_section(&mut obj, crate::msvc::idata_name(52u8), SectionClass::Data);
    set_characteristics(&mut obj, id4, 0xc030_0040);
    let id5 = add_section(&mut obj, crate::msvc::idata_name(53u8), SectionClass::Data);
    set_characteristics(&mut obj, id5, 0xc030_0040);
    let id7 = add_section(&mut obj, crate::msvc::idata_name(55u8), SectionClass::Data);
    add_file_symbol(&mut obj, fake_name());
    let iname = add_data_symbol(&mut obj, join(mangled, iname_suffix().as_slice()), Some(id7));
    let iname_sym_name = symbol_name(&obj, iname);
    let zeros = zero_vec(8);
    append_section_data(&mut obj, id4, zeros.as_slice(), 4);
    append_section_data(&mut obj, id5, zeros.as_slice(), 4);
    let nul: [u8; 1] = [0u8];
    let name_bytes = join(dll, nul.as_slice());
    assert(nul@ =~= seq![0u8]);
    append_section_data(&mut obj, id7, name_bytes.as_slice(), 4);
    let data = write_object(&obj).unwrap();
    let suffix: Vec<u8> = vec![95u8, 116u8, 46u8, 111u8];
    assert(suffix@ =~= seq![95u8, 116u8, 46u8, 111u8]);
    let mut symbols: Vec<Vec<u8>> = Vec::new();
    symbols.push(iname_sym_name);
    let r = ArchiveMember { name: join(mangled, suffix.as_slice()), data, symbols };
    assert(views(r.symbols@) =~= seq![global_name(m, iname_symbol(mangled@))]);
    r
}

/// The jump stub of one export; an export name holding a NUL is refused.
#[verifier::rlimit(60)]
fn make_one(m: MachineType, mangled: &[u8], export: &ShortExport, seq: usize) -> (r: Result<
    ArchiveMember,
    crate::Error,
>)
    requires
        crate::coff::no_nul(mangled@),
    ensures
        (r is Ok) <==> crate::coff::no_nul(encode_utf8(export.name@)),
        r matches Err(e) ==> e == crate::Error::NulInExportName,
        r matches Ok(mem) ==> mem@ == (
            stub_name_from(mangled@, seq as nat),
            coff_bytes(
                stub_model(
                    m,
                    mangled@,
                    encode_utf8(export.name@),
                    export.data,
                    export.no_name,
                    export.ordinal,
                ),
            ),
            stub_symbols(encode_utf8(export.name@), export.data),
        ),
{
    let name = export.name.as_str().as_bytes();
    if crate::coff::has_nul(name) {
        return Err(crate::Error::NulInExportName);
    }
    let mut obj = new_coff_object(m);
    let text = add_standard_sections(&mut obj, m, 0x0030_0000);
    let id7 = add_section(&mut obj, crate::msvc::idata_name(55u8), SectionClass::Data);
    set_characteristics(&mut obj, id7, 0xc030_0000);
    let id5 = add_section(&mut obj, crate::msvc::idata_name(53u8), SectionClass::Data);
    set_characteristics(&mut obj, id5, 0xc030_0000);
    let id4 = add_section(&mut obj, crate::msvc::idata_name(52u8), SectionClass::Data);
    set_characteristics(&mut obj, id4, 0xc030_0000);
    let id6 = add_section(&mut obj, crate::msvc::idata_name(54u8), SectionClass::Data);
    set_characteristics(&mut obj, id6, 0xc020_0000);
    let head = add_data_symbol(&mut obj, join(head_prefix().as_slice(), mangled), None);
    disable_mangling(&mut obj);
    let mut archive_symbols: Vec<Vec<u8>> = Vec::new();
    let imp_name = join(crate::msvc::imp_prefix_bytes().as_slice(), name);
    if !export.data {
        add_data_symbol(&mut obj, join(name, &[]), Some(text));
        archive_symbols.push(join(name, &[]));
    }
    let imp = add_data_symbol(&mut obj, join(imp_name.as_slice(), &[]), Some(id5));
    archive_symbols.push(imp_name);
    assert(views(archive_symbols@) =~= stub_symbols(name@, export.data));
    if !export.data {
        let (stub, offset, rel) = jump_stub(m);
        append_section_data(&mut obj, text, stub.as_slice(), 4);
        let _ = add_relocation(&mut obj, text, offset, imp, rel, jump_addend());
    }
    let img_rel = m.img_rel_relocation();
    let four = zero_vec(4);
    append_section_data(&mut obj, id7, four.as_slice(), 4);
    let _ = add_relocation(&mut obj, id7, 0, head, img_rel, 0);
    let id6_sym = section_symbol(&mut obj, id6);
    let eight = zero_vec(8);
    if export.no_name {
        let entry = make_ordinal_entry(export.ordinal);
        append_section_data(&mut obj, id5, entry.as_slice(), 4);
        append_section_data(&mut obj, id4, entry.as_slice(), 4);
    } else {
        let _ = add_relocation(&mut obj, id5, 0, id6_sym, img_rel, 0);
        append_section_data(&mut obj, id5, eight.as_slice(), 4);
        let _ = add_relocation(&mut obj, id4, 0, id6_sym, img_rel, 0);
        append_section_data(&mut obj, id4, eight.as_slice(), 4);
        let hint = make_hint_name(m, export.ordinal, name);
        append_section_data(&mut obj, id6, hint.as_slice(), 2);
    }
    let data = write_object(&obj).unwrap();
    Ok(ArchiveMember { name: make_stub_name(mangled, seq), data, symbols: archive_symbols })
}

/// The members of a GNU import library for `exports` from the DLL `dll`:
/// the head, one stub per export in order, then the tail. An export name
/// holding a NUL is refused.
pub fn gnu_import_members(exports: &Vec<ShortExport>, m: MachineType, dll: &[u8]) -> (r: Result<
    Vec<ArchiveMember>,
    crate::Error,
>)
    ensures
        !crate::coff::no_nul(dll@) ==> r == Err::<Vec<ArchiveMember>, crate::Error>(
            crate::Error::NulInImportName,
        ),
        crate::coff::no_nul(dll@) && crate::any_export_nul(crate::def::export_models(exports@))
            ==> r == Err::<Vec<ArchiveMember>, crate::Error>(crate::Error::NulInExportName),
        crate::coff::no_nul(dll@) && !crate::any_export_nul(crate::def::export_models(exports@))
            ==> r is Ok,
        r matches Ok(ms) ==> crate::member_models(ms@) == gnu_members(
            crate::def::export_models(exports@),
            m,
            dll@,
        ),
{
    let ghost es = crate::def::export_models(exports@);
    if crate::coff::has_nul(dll) {
        return Err(crate::Error::NulInImportName);
    }
    let mangled = mangle(dll);
    let mut out: Vec<ArchiveMember> = Vec::new();
    out.push(make_head(m, mangled.as_slice()));
    let ghost mg = dll_mangled(dll@);
    let ghost head = seq![(head_name(dll@), coff_bytes(head_model(m, mg)), seq![global_name(m, head_symbol(mg))])];
    assert(crate::member_models(out@) =~= head);
    let mut i: usize = 0;
    while i < exports.len()
        invariant
            i <= exports@.len(),
            es == crate::def::export_models(exports@),
            mangled@ == mg,
            mg == dll_mangled(dll@),
            forall|j: int| 0 <= j < i ==> crate::coff::no_nul(encode_utf8((#[trigger] es[j]).name)),
            crate::coff::no_nul(mg),
            crate::coff::no_nul(dll@),
            crate::member_models(out@) == head + Seq::new(i as nat, |j: int| stub_member(es[j], m, dll@, j as nat)),
            out@.len() == i + 1,
        decreases exports@.len() - i,
    {
        let ghost before = crate::member_models(out@);
        assert(es[i as int] == exports@[i as int]@);
        match make_one(m, mangled.as_slice(), &exports[i], i) {
            Ok(stub) => {
                assert(stub@ == stub_member(es[i as int], m, dll@, i as nat));
                out.push(stub);
                assert(crate::member_models(out@) =~= before.push(stub@));
            },
            Err(e) => {
                assert(crate::any_export_nul(es));
                return Err(e);
            },
        }
        i += 1;
        assert(crate::member_models(out@) =~= head + Seq::new(i as nat, |j: int| stub_member(es[j], m, dll@, j as nat)));
    }
    out.push(make_tail(m, mangled.as_slice(), dll));
    assert(crate::member_models(out@) =~= gnu_members(es, m, dll@));
    Ok(out)
}

/// In the stub of a code export, `.text` holds the jump instruction and one
/// relocation, at the machine's offset and of its PC-relative type, against
/// symbol 2, `__imp_<name>`, defined in `.idata$5`; symbol 1 is `<name>`,
/// defined in `.text`; symbol 0 is the undefined `_head_<mg>`.
pub proof fn lemma_stub_jump(m: MachineType, mg: Seq<u8>, name: Seq<u8>, no_name: bool, ordinal: u16)
    ensures
        ({
            let o = stub_model(m, mg, name, false, no_name, ordinal);
            &&& o.sections[0].name == seq![46u8, 116u8, 101u8, 120u8, 116u8]
            &&& o.sections[0].data == jump_template(m)
            &&& o.sections[0].relocs == seq![
                RelocModel { offset: jump_offset(m) as u64, symbol: 2, typ: crate::rel32_type(m) },
            ]
            &&& o.symbols[0] == SymbolModel { name: global_name(m, head_symbol(mg)), role: SymbolRole::Global(None) }
            &&& o.symbols[1] == SymbolModel { name, role: SymbolRole::Global(Some(0)) }
            &&& o.symbols[2] == SymbolModel { name: imp_prefix() + name, role: SymbolRole::Global(Some(4)) }
        }),
{
    assert(append_aligned(seq![], jump_template(m), 4) =~= jump_template(m));
}

/// In the stub of a data export, `.text` is empty and has no relocation,
/// and the only global defined symbol is `__imp_<name>` in `.idata$5`.
pub proof fn lemma_stub_data(m: MachineType, mg: Seq<u8>, name: Seq<u8>, no_name: bool, ordinal: u16)
    ensures
        ({
            let o = stub_model(m, mg, name, true, no_name, ordinal);
            &&& o.sections[0].data == Seq::<u8>::empty()
            &&& o.sections[0].relocs == Seq::<RelocModel>::empty()
            &&& o.symbols[1] == SymbolModel { name: imp_prefix() + name, role: SymbolRole::Global(Some(4)) }
        }),
{
}

/// In a stub imported by ordinal, `.idata$5` and `.idata$4` each hold the
/// ordinal entry and have no relocation.
pub proof fn lemma_stub_ordinal(m: MachineType, mg: Seq<u8>, name: Seq<u8>, data: bool, ordinal: u16)
    ensures
        ({
            let o = stub_model(m, mg, name, data, true, ordinal);
            &&& o.sections[4].data == ordinal_entry(ordinal)
            &&& o.sections[5].data == ordinal_entry(ordinal)
            &&& o.sections[4].relocs == Seq::<RelocModel>::empty()
            &&& o.sections[5].relocs == Seq::<RelocModel>::empty()
        }),
{
    assert(append_aligned(seq![], ordinal_entry(ordinal), 4) =~= ordinal_entry(ordinal));
}

/// In a stub imported by name, `.idata$5` and `.idata$4` each hold 8 zero
/// bytes with one image-relative relocation at 0 against the symbol of
/// `.idata$6`, which holds the hint/name entry.
pub proof fn lemma_stub_by_name(m: MachineType, mg: Seq<u8>, name: Seq<u8>, data: bool, ordinal: u16)
    ensures
        ({
            let o = stub_model(m, mg, name, data, false, ordinal);
            let s6 = o.sections[6].symbol->0;
            &&& o.sections[6].symbol is Some
            &&& o.symbols[s6 as int].role == SymbolRole::SectionOf(6)
            &&& o.sections[4].data == zero_bytes(8)
            &&& o.sections[5].data == zero_bytes(8)
            &&& o.sections[4].relocs == seq![RelocModel { offset: 0, symbol: s6, typ: crate::img_rel_type(m) }]
            &&& o.sections[5].relocs == seq![RelocModel { offset: 0, symbol: s6, typ: crate::img_rel_type(m) }]
            &&& o.sections[6].data == hint_name(m, ordinal, name)
        }),
{
    assert(append_aligned(seq![], zero_bytes(8), 4) =~= zero_bytes(8));
    assert(append_aligned(seq![], hint_name(m, ordinal, name), 2) =~= hint_name(m, ordinal, name));
}

/// The head object: `.idata$2` holds 20 zero bytes with image-relative
/// relocations at 0, 16 and 12 against the symbols of `.idata$4`,
/// `.idata$5` and the undefined `<mg>_iname`; `_head_<mg>` is defined in
/// `.idata$2`.
pub proof fn lemma_head_contents(m: MachineType, mg: Seq<u8>)
    ensures
        ({
            let o = head_model(m, mg);
            let ir = crate::img_rel_type(m);
            &&& o.sections[3].name == idata(50)
            &&& o.sections[3].data == zero_bytes(20)
            &&& o.sections[5].symbol == Some(2nat)
            &&& o.sections[4].symbol == Some(1nat)
            &&& o.sections[3].relocs == seq![
                RelocModel { offset: 0, symbol: 2, typ: ir },
                RelocModel { offset: 16, symbol: 1, typ: ir },
                RelocModel { offset: 12, symbol: 4, typ: ir },
            ]
            &&& o.symbols[3] == SymbolModel { name: global_name(m, head_symbol(mg)), role: SymbolRole::Global(Some(3)) }
            &&& o.symbols[4] == SymbolModel { name: global_name(m, iname_symbol(mg)), role: SymbolRole::Global(None) }
        }),
{
    assert(append_aligned(seq![], zero_bytes(20), 4) =~= zero_bytes(20));
}

/// The tail object: `.idata$4` and `.idata$5` hold 8 zero bytes each,
/// `.idata$7` holds the DLL name and a NUL, and `<mg>_iname` is defined in
/// `.idata$7`.
pub proof fn lemma_tail_contents(m: MachineType, mg: Seq<u8>, dll: Seq<u8>)
    ensures
        ({
            let o = tail_model(m, mg, dll);
            &&& o.sections[3].data == zero_bytes(8)
            &&& o.sections[4].data == zero_bytes(8)
            &&& o.sections[5].name == idata(55)
            &&& o.sections[5].data == dll + seq![0u8]
            &&& o.symbols[1] == SymbolModel { name: global_name(m, iname_symbol(mg)), role: SymbolRole::Global(Some(5)) }
        }),
{
    assert(append_aligned(seq![], zero_bytes(8), 4) =~= zero_bytes(8));
    assert(append_aligned(seq![], dll + seq![0u8], 4) =~= dll + seq![0u8]);
}

} // verus!

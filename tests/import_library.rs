use implib::ar::{GnuBuilder, Header};
use implib::{Error, Flavor, GnuImportLibrary, ImportLibrary, MachineType};

struct Member {
    offset: usize,
    name: String,
    data: Vec<u8>,
}

fn parse_archive(a: &[u8]) -> (Vec<Member>, Vec<(u32, String)>) {
    assert_eq!(&a[..8], b"!<arch>\n");
    let mut pos = 8;
    let mut raw = Vec::new();
    while pos + 60 <= a.len() {
        let name = String::from_utf8(a[pos..pos + 16].to_vec()).unwrap();
        let size: usize = std::str::from_utf8(&a[pos + 48..pos + 58])
            .unwrap()
            .trim()
            .parse()
            .unwrap();
        assert_eq!(&a[pos + 58..pos + 60], b"`\n");
        raw.push((pos, name, a[pos + 60..pos + 60 + size].to_vec()));
        pos += 60 + size + size % 2;
    }
    assert_eq!(pos, a.len());
    let mut table = Vec::new();
    let mut symbols = Vec::new();
    let mut members = Vec::new();
    for (index, (offset, name, data)) in raw.into_iter().enumerate() {
        if index == 0 && name.trim_end() == "/" {
            let count = u32::from_be_bytes(data[0..4].try_into().unwrap()) as usize;
            let mut names = data[4 + 4 * count..].split(|b| *b == 0);
            for i in 0..count {
                let off = u32::from_be_bytes(data[4 + 4 * i..8 + 4 * i].try_into().unwrap());
                let n = String::from_utf8(names.next().unwrap().to_vec()).unwrap();
                symbols.push((off, n));
            }
        } else if name.trim_end() == "//" {
            table = data;
        } else if name.starts_with('/') && name[1..].trim_end().len() > 0 {
            let start: usize = name[1..].trim_end().parse().unwrap();
            let end = start + table[start..].windows(2).position(|w| w == b"/\n").unwrap();
            let long = String::from_utf8(table[start..end].to_vec()).unwrap();
            members.push(Member { offset, name: long, data });
        } else {
            let short = name.trim_end().strip_suffix('/').unwrap_or("").to_string();
            members.push(Member { offset, name: short, data });
        }
    }
    (members, symbols)
}

fn build(def: &str, machine: MachineType, flavor: Flavor) -> Vec<u8> {
    ImportLibrary::new(def, machine, flavor).unwrap().write_to().unwrap()
}

fn contains(hay: &[u8], needle: &[u8]) -> bool {
    hay.windows(needle.len()).any(|w| w == needle)
}

#[test]
fn msvc_scenario_short_import_header() {
    let a = build("LIBRARY foo.dll\nEXPORTS\nbar\n", MachineType::AMD64, Flavor::Msvc);
    assert_eq!(&a[..8], b"!<arch>\n");
    let (members, _) = parse_archive(&a);
    assert_eq!(members.len(), 4);
    for m in &members {
        assert_eq!(m.name, "foo.dll");
    }
    let short = &members[3].data;
    assert_eq!(&short[..8], &[0x00, 0x00, 0xFF, 0xFF, 0x00, 0x00, 0x64, 0x86]);
    assert_eq!(&short[12..16], &12u32.to_le_bytes());
    assert_eq!(&short[20..], b"bar\0foo.dll\0");
}

#[test]
fn msvc_descriptor_symbols() {
    let a = build("LIBRARY foo.dll\nEXPORTS\nbar\n", MachineType::AMD64, Flavor::Msvc);
    let (members, symbols) = parse_archive(&a);
    let names: Vec<&str> = symbols.iter().map(|s| s.1.as_str()).collect();
    assert_eq!(
        names,
        vec![
            "__IMPORT_DESCRIPTOR_foo",
            "__NULL_IMPORT_DESCRIPTOR",
            "\x7ffoo_NULL_THUNK_DATA",
            "__imp_bar",
            "bar"
        ]
    );
    assert_eq!(symbols[0].0 as usize, members[0].offset);
    assert_eq!(symbols[3].0 as usize, members[3].offset);
    assert_eq!(members[2].data.len(), 20 + 80 + 16 + 18 + 4 + 21);
}

#[test]
fn msvc_ordinal_only_import() {
    let a = build("LIBRARY k.dll\nEXPORTS\nx @ 7 NONAME\n", MachineType::AMD64, Flavor::Msvc);
    let (members, _) = parse_archive(&a);
    let short = &members[3].data;
    assert_eq!(u16::from_le_bytes([short[16], short[17]]), 7);
    let info = u16::from_le_bytes([short[18], short[19]]);
    assert_eq!(info & 3, 0);
    assert_eq!((info >> 2) & 3, 0);
}

#[test]
fn msvc_weak_aliases_precede_short_import() {
    let a = build("EXPORTS\n alpha == beta\n", MachineType::AMD64, Flavor::Msvc);
    let (members, _) = parse_archive(&a);
    assert_eq!(members.len(), 6);
    assert!(contains(&members[3].data, b"beta\0alpha\0"));
    assert!(!contains(&members[3].data, b"__imp_"));
    assert!(contains(&members[4].data, b"__imp_beta\0__imp_alpha\0"));
    assert_eq!(&members[5].data[..4], &[0x00, 0x00, 0xFF, 0xFF]);
    assert!(contains(&members[5].data, b"alpha\0"));
}

#[test]
fn msvc_member_count() {
    let a = build(
        "LIBRARY m.dll\nEXPORTS\n a\n b PRIVATE\n c == d\n e DATA\n",
        MachineType::I386,
        Flavor::Msvc,
    );
    let (members, symbols) = parse_archive(&a);
    assert_eq!(members.len(), 3 + 3 + 2);
    let names: Vec<&str> = symbols.iter().map(|s| s.1.as_str()).collect();
    assert!(names.contains(&"__imp__a"));
    assert!(names.contains(&"_a"));
    assert!(names.contains(&"__imp__e"));
    assert!(!names.contains(&"_e"));
    assert!(!names.contains(&"_b"));
}

#[test]
fn gnu_scenario_members() {
    let a = build("LIBRARY foo.dll\nEXPORTS\nbar\n", MachineType::AMD64, Flavor::Gnu);
    let (members, _) = parse_archive(&a);
    let names: Vec<&str> = members.iter().map(|m| m.name.as_str()).collect();
    assert_eq!(names, vec!["foo_dll_h.o", "foo_dll_s00000.o", "foo_dll_t.o"]);
    assert!(contains(&members[1].data, &[0xff, 0x25, 0, 0, 0, 0, 0x90, 0x90]));
}

#[test]
fn gnu_member_count_and_stub_symbols() {
    let a = build(
        ";\n; comment\nLIBRARY p.dll\nEXPORTS\nA\nB DATA",
        MachineType::AMD64,
        Flavor::Gnu,
    );
    let (members, symbols) = parse_archive(&a);
    assert_eq!(members.len(), 2 + 2);
    let names: Vec<&str> = symbols.iter().map(|s| s.1.as_str()).collect();
    assert!(names.contains(&"A"));
    assert!(names.contains(&"__imp_A"));
    assert!(names.contains(&"__imp_B"));
    assert!(!names.contains(&"B"));
    for (off, _) in &symbols {
        assert!(members.iter().any(|m| m.offset == *off as usize));
    }
}

#[test]
fn gnu_arm_stub_template() {
    let a = build("LIBRARY q.dll\nEXPORTS\nf\n", MachineType::ARM64, Flavor::Gnu);
    let (members, _) = parse_archive(&a);
    assert!(contains(
        &members[1].data,
        &[0x00, 0xc0, 0x9f, 0xe5, 0x00, 0xf0, 0x9c, 0xe5]
    ));
}

#[test]
fn gnu_long_identifiers_use_name_table() {
    let dll = "abcdefghijklmnopqrstuvwxyz0123456789.dll";
    assert_eq!(dll.len(), 40);
    let a = build(&format!("LIBRARY {}\nEXPORTS\nf\n", dll), MachineType::AMD64, Flavor::Gnu);
    let mut table_header = b"//".to_vec();
    table_header.extend(std::iter::repeat(b' ').take(46));
    assert!(contains(&a, &table_header));
    let (members, _) = parse_archive(&a);
    assert_eq!(members[0].name, "abcdefghijklmnopqrstuvwxyz0123456789_dll_h.o");
    assert_eq!(members[2].name, "abcdefghijklmnopqrstuvwxyz0123456789_dll_t.o");
}

#[test]
fn symbol_index_points_at_headers() {
    let a = build(
        "LIBRARY sample.dll\nEXPORTS\n one\n two DATA\n three\n",
        MachineType::AMD64,
        Flavor::Msvc,
    );
    let (members, symbols) = parse_archive(&a);
    for (off, _) in &symbols {
        let off = *off as usize;
        assert!(members.iter().any(|m| m.offset == off));
        assert_eq!(&a[off + 58..off + 60], b"`\n");
    }
}

#[test]
fn generation_is_deterministic() {
    let text = "LIBRARY foo.dll\nEXPORTS\nbar\nbaz DATA\n";
    for flavor in [Flavor::Msvc, Flavor::Gnu] {
        let a = build(text, MachineType::AMD64, flavor);
        let b = build(text, MachineType::AMD64, flavor);
        assert_eq!(a, b);
    }
}

#[test]
fn test_gnu_with_bad_input() {
    let def = implib::def::ModuleDef::parse("EXPORTS D\u{c}\0", MachineType::AMD64).unwrap();
    let import_lib = GnuImportLibrary::new(def, MachineType::AMD64);
    assert_eq!(import_lib.write_to().unwrap_err(), Error::NulInExportName);
}

#[test]
fn nul_in_import_name_is_rejected() {
    let lib = ImportLibrary::new("LIBRARY \"a\0b\"", MachineType::AMD64, Flavor::Msvc).unwrap();
    assert_eq!(lib.write_to().unwrap_err(), Error::NulInImportName);
}

#[test]
fn external_name_replaces_name() {
    let lib = ImportLibrary::new("LIBRARY x.dll\nEXPORTS\n a = b\n", MachineType::AMD64, Flavor::Msvc).unwrap();
    assert_eq!(lib.import_name(), "x.dll");
    let a = lib.write_to().unwrap();
    let (_, symbols) = parse_archive(&a);
    assert!(symbols.iter().any(|s| s.1 == "__imp_a"));
    assert!(!symbols.iter().any(|s| s.1 == "__imp_b"));
}

#[test]
fn parse_error_is_reported() {
    let err = ImportLibrary::new("BOGUS", MachineType::AMD64, Flavor::Msvc).unwrap_err();
    assert_eq!(
        err,
        Error::ModuleDef(implib::def::Error::UnknownDirective("BOGUS".to_string()))
    );
}

#[test]
fn builder_rejects_undeclared_and_wrong_size() {
    let mut b = GnuBuilder::new_with_symbol_table(
        false,
        vec![b"a.o".to_vec(), b"a_very_long_member_name.o".to_vec()],
        vec![vec![b"sym".to_vec()], vec![]],
    )
    .unwrap();
    let bad = Header::new(b"b.o".to_vec(), 1);
    assert_eq!(b.append(&bad, &[1]).unwrap_err(), Error::UndeclaredIdentifier);
    let wrong = Header::new(b"a.o".to_vec(), 2);
    assert_eq!(b.append(&wrong, &[1]).unwrap_err(), Error::SizeMismatch);
    let mut good = Header::new(b"a.o".to_vec(), 1);
    good.set_mode(0o644);
    b.append(&good, &[7]).unwrap();
    let long = Header::new(b"a_very_long_member_name.o".to_vec(), 2);
    b.append(&long, &[1, 2]).unwrap();
    let bytes = b.into_bytes();
    let (members, symbols) = parse_archive(&bytes);
    assert_eq!(members[0].name, "a.o");
    assert_eq!(members[0].data, vec![7]);
    assert_eq!(members[1].name, "a_very_long_member_name.o");
    assert_eq!(symbols, vec![(members[0].offset as u32, "sym".to_string())]);
    assert!(contains(&bytes, b"a.o/            0           0     0     644     1         `\n"));
}

#[test]
fn gnu_ordinal_stub_holds_ordinal_entry() {
    let a = build("LIBRARY k.dll\nEXPORTS\nx @ 7 NONAME\n", MachineType::AMD64, Flavor::Gnu);
    let (members, _) = parse_archive(&a);
    assert!(contains(&members[1].data, &[7, 0, 0, 0, 0, 0, 0, 0x80]));
}

#[test]
fn gnu_data_stub_has_no_jump() {
    let a = build("LIBRARY k.dll\nEXPORTS\nv DATA\n", MachineType::AMD64, Flavor::Gnu);
    let (members, symbols) = parse_archive(&a);
    assert!(!contains(&members[1].data, &[0xff, 0x25, 0, 0, 0, 0, 0x90, 0x90]));
    assert!(symbols.iter().any(|s| s.1 == "__imp_v"));
    assert!(!symbols.iter().any(|s| s.1 == "v"));
}

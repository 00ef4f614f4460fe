use implib::def::{Error, Lexer, ModuleDef, Parser, Token, TokenKind};
use implib::MachineType;

fn tok(kind: TokenKind, value: Option<&str>) -> Option<Token> {
    Some(Token {
        kind,
        value: value.map(|v| v.to_string()),
    })
}

#[test]
fn test_lexer() {
    let mut lexer = Lexer::new(r#"NAME foo.dll"#);
    assert_eq!(lexer.next(), tok(TokenKind::KwName, Some("NAME")));
    assert_eq!(lexer.next(), tok(TokenKind::Identifier, Some("foo.dll")));
    assert_eq!(lexer.next(), tok(TokenKind::Eof, None));

    let mut lexer = Lexer::new("");
    assert_eq!(lexer.next(), tok(TokenKind::Eof, None));

    let mut lexer = Lexer::new("\0");
    assert_eq!(lexer.next(), tok(TokenKind::Eof, None));

    let mut lexer = Lexer::new(r#"=,=="CODE"BASE;"#);
    assert_eq!(lexer.next(), tok(TokenKind::Equal, Some("=")));
    assert_eq!(lexer.next(), tok(TokenKind::Comma, Some(",")));
    assert_eq!(lexer.next(), tok(TokenKind::EqualEqual, Some("==")));
    assert_eq!(lexer.next(), tok(TokenKind::Identifier, Some("CODE")));
    assert_eq!(lexer.next(), tok(TokenKind::KwBase, Some("BASE")));
    assert_eq!(lexer.next(), tok(TokenKind::Eof, None));
}

#[test]
fn test_parser() {
    Parser::new("", MachineType::AMD64).parse().unwrap();

    let def = Parser::new("NAME foo", MachineType::AMD64).parse().unwrap();
    assert_eq!(def.import_name, "foo");

    let def = Parser::new("LIBRARY foo.dll", MachineType::AMD64).parse().unwrap();
    assert_eq!(def.import_name, "foo.dll");

    let def = Parser::new(";\n; comment\nLIBRARY foo.dll", MachineType::AMD64).parse().unwrap();
    assert_eq!(def.import_name, "foo.dll");

    let def = Parser::new(
        r#";
; Definition file of python310.dll
; Automatic generated by gendef
; written by Kai Tietz 2008
;
LIBRARY "python310.dll"
EXPORTS
PyAIter_Check
PyArg_Parse
PyByteArray_Type DATA
PyBytesIter_Type DATA"#,
        MachineType::AMD64,
    )
    .parse()
    .unwrap();
    assert_eq!(def.import_name, "python310.dll");
    assert_eq!(def.exports.len(), 4);
    assert_eq!(def.exports[0].name, "PyAIter_Check");
    assert!(!def.exports[0].data);
    assert_eq!(def.exports[1].name, "PyArg_Parse");
    assert!(!def.exports[1].data);
    assert_eq!(def.exports[2].name, "PyByteArray_Type");
    assert!(def.exports[2].data);
    assert_eq!(def.exports[3].name, "PyBytesIter_Type");
    assert!(def.exports[3].data);
}

#[test]
fn test_parser_with_bad_input() {
    Parser::new(" \u{b}EXPORTS D \u{b}===", MachineType::AMD64)
        .parse()
        .unwrap_err();
}

#[test]
fn delimiter_after_word_is_its_own_token() {
    let def = Parser::new("EXPORTS 8= @", MachineType::AMD64).parse().unwrap();
    assert_eq!(def.exports.len(), 1);
    assert_eq!(def.exports[0].name, "@");
    assert_eq!(def.exports[0].ext_name.as_deref(), Some("8"));
}

#[test]
fn alias_needs_identifier() {
    assert_eq!(
        ModuleDef::parse("EXPORTS a == =", MachineType::AMD64).unwrap_err(),
        Error::ExpectedIdentifier
    );
}

#[test]
fn empty_text_gives_defaults() {
    let def = ModuleDef::parse("", MachineType::AMD64).unwrap();
    assert!(def.exports.is_empty());
    assert_eq!(def.import_name, "");
    assert_eq!(def.image_base, 0);
    assert_eq!(def.stack_reserve, 0);
    assert_eq!(def.stack_commit, 0);
    assert_eq!(def.heap_reserve, 0);
    assert_eq!(def.heap_commit, 0);
    assert_eq!(def.major_image_version, 0);
    assert_eq!(def.minor_image_version, 0);
    assert_eq!(def.major_os_version, 0);
    assert_eq!(def.minor_os_version, 0);
}

#[test]
fn indented_comment_line_has_no_effect() {
    let with = ModuleDef::parse(" ; anything = , \"\n NAME foo BASE=4096", MachineType::AMD64).unwrap();
    let without = ModuleDef::parse(" NAME foo BASE=4096", MachineType::AMD64).unwrap();
    assert_eq!(with.import_name, without.import_name);
    assert_eq!(with.image_base, 4096);
    assert_eq!(without.image_base, 4096);
}

#[test]
fn library_and_name_agree() {
    let a = ModuleDef::parse("LIBRARY x", MachineType::AMD64).unwrap();
    let b = ModuleDef::parse("NAME x", MachineType::AMD64).unwrap();
    assert_eq!(a.import_name, "x");
    assert_eq!(b.import_name, "x");
}

#[test]
fn data_modifier_marks_only_its_export() {
    let def = ModuleDef::parse("EXPORTS\n foo\n bar DATA", MachineType::AMD64).unwrap();
    assert_eq!(def.exports.len(), 2);
    assert_eq!(def.exports[0].name, "foo");
    assert!(!def.exports[0].data);
    assert_eq!(def.exports[1].name, "bar");
    assert!(def.exports[1].data);
}

#[test]
fn i386_decorates_plain_names() {
    let def = ModuleDef::parse("EXPORTS foo", MachineType::I386).unwrap();
    assert_eq!(def.exports[0].name, "_foo");
    let def = ModuleDef::parse("EXPORTS @bar", MachineType::I386).unwrap();
    assert_eq!(def.exports[0].name, "@bar");
    let def = ModuleDef::parse("EXPORTS foo", MachineType::AMD64).unwrap();
    assert_eq!(def.exports[0].name, "foo");
}

#[test]
fn export_modifiers() {
    let def = ModuleDef::parse(
        "EXPORTS\n a = b @5 NONAME PRIVATE\n c @ 9 CONSTANT\n d == e\n",
        MachineType::AMD64,
    )
    .unwrap();
    assert_eq!(def.exports.len(), 3);
    assert_eq!(def.exports[0].name, "b");
    assert_eq!(def.exports[0].ext_name.as_deref(), Some("a"));
    assert_eq!(def.exports[0].ordinal, 5);
    assert!(def.exports[0].no_name);
    assert!(def.exports[0].private);
    assert_eq!(def.exports[1].name, "c");
    assert_eq!(def.exports[1].ordinal, 9);
    assert!(def.exports[1].constant);
    assert_eq!(def.exports[2].name, "d");
    assert_eq!(def.exports[2].alias_target, "e");
}

#[test]
fn sizes_and_version() {
    let def = ModuleDef::parse(
        "HEAPSIZE 100, 20\nSTACKSIZE +300\nVERSION 3.14",
        MachineType::AMD64,
    )
    .unwrap();
    assert_eq!(def.heap_reserve, 100);
    assert_eq!(def.heap_commit, 20);
    assert_eq!(def.stack_reserve, 300);
    assert_eq!(def.stack_commit, 0);
    assert_eq!(def.major_image_version, 3);
    assert_eq!(def.minor_image_version, 14);
}

#[test]
fn parse_errors() {
    assert_eq!(
        ModuleDef::parse("FOO", MachineType::AMD64).unwrap_err(),
        Error::UnknownDirective("FOO".to_string())
    );
    assert_eq!(
        ModuleDef::parse("VERSION ,", MachineType::AMD64).unwrap_err(),
        Error::ExpectedIdentifier
    );
    assert_eq!(
        ModuleDef::parse("HEAPSIZE abc", MachineType::AMD64).unwrap_err(),
        Error::ExpectedInteger
    );
    assert_eq!(
        ModuleDef::parse("VERSION 4294967296", MachineType::AMD64).unwrap_err(),
        Error::ExpectedInteger
    );
    assert_eq!(
        ModuleDef::parse("NAME x BASE 5", MachineType::AMD64).unwrap_err(),
        Error::ExpectedEqual
    );
    assert_eq!(
        ModuleDef::parse("EXPORTS x @ 65536", MachineType::AMD64).unwrap_err(),
        Error::ExpectedInteger
    );
}

//! Module-definition (`.DEF`) files.

use vstd::prelude::*;

pub use self::error::{Error, ErrorModel};
pub use self::lexer::{Lexer, Token, TokenKind};
pub use self::parser::Parser;

use crate::MachineType;

mod error;
pub mod lexer;
pub mod parser;

verus! {

/// What a module definition states.
pub struct DefModel {
    pub exports: Seq<ExportModel>,
    pub import_name: Seq<char>,
    pub image_base: u64,
    pub stack_reserve: u64,
    pub stack_commit: u64,
    pub heap_reserve: u64,
    pub heap_commit: u64,
    pub major_image_version: u32,
    pub minor_image_version: u32,
    pub major_os_version: u32,
    pub minor_os_version: u32,
}

/// What one export states.
pub struct ExportModel {
    pub name: Seq<char>,
    pub ext_name: Option<Seq<char>>,
    pub symbol_name: Seq<char>,
    pub alias_target: Seq<char>,
    pub ordinal: u16,
    pub no_name: bool,
    pub data: bool,
    pub private: bool,
    pub constant: bool,
}

/// A module definition with nothing set.
pub open spec fn empty_def() -> DefModel {
    DefModel {
        exports: seq![],
        import_name: seq![],
        image_base: 0,
        stack_reserve: 0,
        stack_commit: 0,
        heap_reserve: 0,
        heap_commit: 0,
        major_image_version: 0,
        minor_image_version: 0,
        major_os_version: 0,
        minor_os_version: 0,
    }
}

/// An export called `name`, with nothing else set.
pub open spec fn plain_export(name: Seq<char>) -> ExportModel {
    ExportModel {
        name,
        ext_name: None,
        symbol_name: seq![],
        alias_target: seq![],
        ordinal: 0,
        no_name: false,
        data: false,
        private: false,
        constant: false,
    }
}

/// Simple .DEF file parser
#[derive(Debug, Clone)]
pub struct ModuleDef {
    pub exports: Vec<ShortExport>,
    pub import_name: String,
    pub image_base: u64,
    pub stack_reserve: u64,
    pub stack_commit: u64,
    pub heap_reserve: u64,
    pub heap_commit: u64,
    pub major_image_version: u32,
    pub minor_image_version: u32,
    pub major_os_version: u32,
    pub minor_os_version: u32,
}

/// COFF short export
#[derive(Debug, Clone)]
pub struct ShortExport {
    /// The name of the export as specified in the .def file or on the command
    /// line, i.e. "foo" in "/EXPORT:foo", and "bar" in "/EXPORT:foo=bar"
    pub name: String,
    /// The external, exported name. Only non-empty when export renaming is in
    /// effect, i.e. "foo" in "/EXPORT:foo=bar".
    pub ext_name: Option<String>,
    /// The real, mangled symbol name from the object file.
    pub symbol_name: String,
    /// Creates a weak alias. This is the name of the weak aliasee. In a .def
    /// file, this is "baz" in "EXPORTS\nfoo = bar == baz".
    pub alias_target: String,
    pub ordinal: u16,
    pub no_name: bool,
    pub data: bool,
    pub private: bool,
    pub constant: bool,
}

impl View for ShortExport {
    type V = ExportModel;

    open spec fn view(&self) -> ExportModel {
        ExportModel {
            name: self.name@,
            ext_name: match self.ext_name {
                Some(s) => Some(s@),
                None => None,
            },
            symbol_name: self.symbol_name@,
            alias_target: self.alias_target@,
            ordinal: self.ordinal,
            no_name: self.no_name,
            data: self.data,
            private: self.private,
            constant: self.constant,
        }
    }
}

/// The models of a sequence of exports.
pub open spec fn export_models(v: Seq<ShortExport>) -> Seq<ExportModel> {
    Seq::new(v.len(), |i: int| v[i]@)
}

impl View for ModuleDef {
    type V = DefModel;

    open spec fn view(&self) -> DefModel {
        DefModel {
            exports: export_models(self.exports@),
            import_name: self.import_name@,
            image_base: self.image_base,
            stack_reserve: self.stack_reserve,
            stack_commit: self.stack_commit,
            heap_reserve: self.heap_reserve,
            heap_commit: self.heap_commit,
            major_image_version: self.major_image_version,
            minor_image_version: self.minor_image_version,
            major_os_version: self.major_os_version,
            minor_os_version: self.minor_os_version,
        }
    }
}

impl Default for ModuleDef {
    fn default() -> (r: ModuleDef)
        ensures
            r@ == empty_def(),
    {
        let r = ModuleDef {
            exports: Vec::new(),
            import_name: String::new(),
            image_base: 0,
            stack_reserve: 0,
            stack_commit: 0,
            heap_reserve: 0,
            heap_commit: 0,
            major_image_version: 0,
            minor_image_version: 0,
            major_os_version: 0,
            minor_os_version: 0,
        };
        assert(r@.exports =~= seq![]);
        r
    }
}

impl ModuleDef {
    /// Parses module-definition text; under `I386` undecorated export names
    /// get a leading `_`.
    pub fn parse(def: &str, machine: MachineType) -> (r: Result<ModuleDef, Error>)
        ensures
            match r {
                Ok(d) => parser::parse_text(def@, machine) == Ok::<DefModel, ErrorModel>(d@),
                Err(e) => parser::parse_text(def@, machine) == Err::<DefModel, ErrorModel>(e@),
            },
    {
        Parser::new(def, machine).parse()
    }
}

} // verus!
